//! Character-level text utilities: whitespace trimming, substring search and
//! decimal rendering, each stated over the character sequence of a string.

use vstd::prelude::*;
use vstd::std_specs::iter::IteratorSpec;

verus! {

/// Unicode `White_Space` property, as `char::is_whitespace` documents it.
pub open spec fn is_ws(c: char) -> bool {
    ||| '\u{9}' <= c <= '\u{d}'
    ||| c == ' '
    ||| c == '\u{85}'
    ||| c == '\u{a0}'
    ||| c == '\u{1680}'
    ||| '\u{2000}' <= c <= '\u{200a}'
    ||| c == '\u{2028}'
    ||| c == '\u{2029}'
    ||| c == '\u{202f}'
    ||| c == '\u{205f}'
    ||| c == '\u{3000}'
}

/// Whether `c` is Unicode whitespace.
pub fn is_whitespace(c: char) -> (r: bool)
    ensures
        r == is_ws(c),
{
    ('\u{9}' <= c && c <= '\u{d}') || c == ' ' || c == '\u{85}' || c == '\u{a0}' || c == '\u{1680}'
        || ('\u{2000}' <= c && c <= '\u{200a}') || c == '\u{2028}' || c == '\u{2029}'
        || c == '\u{202f}' || c == '\u{205f}' || c == '\u{3000}'
}


/// The characters of `s`, in order.
pub fn chars_of(s: &str) -> (v: Vec<char>)
    ensures
        v@ == s@,
{
    broadcast use vstd::string::group_string_axioms;
    let mut v: Vec<char> = Vec::new();
    for c in it: s.chars()
        invariant
            v@ == it.seq().take(it.index() as int),
    {
        v.push(c);
    }
    v
}


/// `s` without its leading whitespace (`str::trim_start`).
pub open spec fn trim_start_spec(s: Seq<char>) -> Seq<char>
    decreases s.len(),
{
    if s.len() > 0 && is_ws(s[0]) {
        trim_start_spec(s.drop_first())
    } else {
        s
    }
}

/// `s` without its trailing whitespace (`str::trim_end`).
pub open spec fn trim_end_spec(s: Seq<char>) -> Seq<char>
    decreases s.len(),
{
    if s.len() > 0 && is_ws(s.last()) {
        trim_end_spec(s.drop_last())
    } else {
        s
    }
}

/// `s` without leading and trailing whitespace (`str::trim`).
pub open spec fn trim_spec(s: Seq<char>) -> Seq<char> {
    trim_end_spec(trim_start_spec(s))
}

/// Index of the first character at or after `lo` that is not whitespace.
pub fn skip_ws(v: &Vec<char>, lo: usize) -> (i: usize)
    requires
        lo <= v.len(),
    ensures
        lo <= i <= v.len(),
        trim_start_spec(v@.skip(lo as int)) == v@.skip(i as int),
{
    let mut i = lo;
    while i < v.len() && is_whitespace(v[i])
        invariant
            lo <= i <= v.len(),
            trim_start_spec(v@.skip(lo as int)) == trim_start_spec(v@.skip(i as int)),
        decreases v.len() - i,
    {
        assert(v@.skip(i as int).drop_first() =~= v@.skip(i + 1));
        i = i + 1;
    }
    i
}

/// End of `v[lo..hi]` once its trailing whitespace is dropped.
pub fn back_skip_ws(v: &Vec<char>, lo: usize, hi: usize) -> (j: usize)
    requires
        lo <= hi <= v.len(),
    ensures
        lo <= j <= hi,
        trim_end_spec(v@.subrange(lo as int, hi as int)) == v@.subrange(lo as int, j as int),
{
    let mut j = hi;
    while j > lo && is_whitespace(v[j - 1])
        invariant
            lo <= j <= hi <= v.len(),
            trim_end_spec(v@.subrange(lo as int, hi as int)) == trim_end_spec(
                v@.subrange(lo as int, j as int),
            ),
        decreases j - lo,
    {
        assert(v@.subrange(lo as int, j as int).drop_last() =~= v@.subrange(lo as int, j - 1));
        j = j - 1;
    }
    j
}

/// `s` with leading and trailing whitespace removed.
pub fn trim(s: &str) -> (r: String)
    ensures
        r@ == trim_spec(s@),
{
    let v = chars_of(s);
    let i: usize = skip_ws(&v, 0);
    let j: usize = back_skip_ws(&v, i, v.len());
    assert(v@.skip(0) =~= v@);
    assert(v@.skip(i as int) =~= v@.subrange(i as int, v.len() as int));
    s.substring_char(i, j).to_owned()
}

/// First position at or after `i` where `pat` occurs in `s` (`str::find`).
pub open spec fn find_from(s: Seq<char>, pat: Seq<char>, i: int) -> Option<int>
    decreases s.len() + 1 - i,
{
    if i < 0 || i + pat.len() > s.len() {
        None
    } else if s.subrange(i, i + pat.len()) == pat {
        Some(i)
    } else {
        find_from(s, pat, i + 1)
    }
}


/// What a successful search tells: the match lies in bounds, no earlier
/// position at or after `i` matches, and the characters there are `pat`.
pub proof fn lemma_find_from(s: Seq<char>, pat: Seq<char>, i: int)
    ensures
        match find_from(s, pat, i) {
            Some(p) => {
                &&& 0 <= i <= p
                &&& p + pat.len() <= s.len()
                &&& s.subrange(p, p + pat.len()) == pat
                &&& forall|q: int| i <= q < p ==> #[trigger] s.subrange(q, q + pat.len()) != pat
            },
            None => forall|q: int|
                0 <= i <= q && q + pat.len() <= s.len() ==> #[trigger] s.subrange(q, q + pat.len())
                    != pat,
        },
    decreases s.len() + 1 - i,
{
    if i < 0 || i + pat.len() > s.len() {
    } else if s.subrange(i, i + pat.len()) == pat {
    } else {
        lemma_find_from(s, pat, i + 1);
    }
}

/// First position where `pat` occurs in `s`.
pub open spec fn find_spec(s: Seq<char>, pat: Seq<char>) -> Option<int> {
    find_from(s, pat, 0)
}

/// Whether `pat` occurs in `hay` at `hay[at..]`.
fn matches_at(hay: &Vec<char>, at: usize, pat: &Vec<char>) -> (r: bool)
    requires
        at + pat.len() <= hay.len(),
    ensures
        r == (hay@.subrange(at as int, at + pat.len()) == pat@),
{
    let mut k: usize = 0;
    while k < pat.len()
        invariant
            at + pat.len() <= hay.len(),
            k <= pat.len(),
            forall|m: int| 0 <= m < k ==> hay@[at + m] == pat@[m],
        decreases pat.len() - k,
    {
        if hay[at + k] != pat[k] {
            assert(hay@.subrange(at as int, at + pat.len())[k as int] != pat@[k as int]);
            return false;
        }
        k = k + 1;
    }
    assert(hay@.subrange(at as int, at + pat.len()) =~= pat@);
    true
}

/// First occurrence of `pat` in `hay[lo..]`, as an offset from `lo`.
pub fn find_after(hay: &Vec<char>, lo: usize, pat: &Vec<char>) -> (r: Option<usize>)
    requires
        lo <= hay.len(),
    ensures
        match find_spec(hay@.skip(lo as int), pat@) {
            Some(p) => r == Some(p as usize),
            None => r is None,
        },
        r matches Some(p) ==> p + pat.len() <= hay.len() - lo,
{
    let ghost t = hay@.skip(lo as int);
    let n: usize = hay.len() - lo;
    assert(t.len() == n);
    proof {
        lemma_find_from(t, pat@, 0);
    }
    if pat.len() > n {
        return None;
    }
    let last: usize = n - pat.len();
    let mut i: usize = 0;
    loop
        invariant
            lo <= hay.len(),
            n == hay.len() - lo,
            last == n - pat.len(),
            t == hay@.skip(lo as int),
            t.len() == n,
            i <= last,
            find_from(t, pat@, 0) == find_from(t, pat@, i as int),
        decreases last - i,
    {
        let found = matches_at(hay, lo + i, pat);
        assert(t.subrange(i as int, i + pat.len()) =~= hay@.subrange(lo + i, lo + i + pat.len()));
        if found {
            return Some(i);
        }
        if i == last {
            assert(find_from(t, pat@, i as int) == find_from(t, pat@, i + 1));
            assert(find_from(t, pat@, i + 1) is None);
            return None;
        }
        i = i + 1;
    }
}


/// `parts` joined by `sep` (`[T]::join`).
pub open spec fn join_spec(parts: Seq<Seq<char>>, sep: Seq<char>) -> Seq<char>
    decreases parts.len(),
{
    if parts.len() == 0 {
        Seq::empty()
    } else if parts.len() == 1 {
        parts[0]
    } else {
        join_spec(parts.drop_last(), sep) + sep + parts.last()
    }
}

/// `parts` joined by `sep`.
pub fn join(parts: &Vec<String>, sep: &str) -> (r: String)
    ensures
        r@ == join_spec(parts@.map_values(|p: String| p@), sep@),
{
    let ghost all = parts@.map_values(|p: String| p@);
    let mut r = String::new();
    let mut i: usize = 0;
    while i < parts.len()
        invariant
            i <= parts.len(),
            all == parts@.map_values(|p: String| p@),
            r@ == join_spec(all.take(i as int), sep@),
        decreases parts.len() - i,
    {
        assert(all.take(i + 1).drop_last() =~= all.take(i as int));
        if i > 0 {
            r.append(sep);
        }
        r.append(parts[i].as_str());
        proof {
            if i == 0 {
                assert(r@ =~= all.take(1)[0]);
            }
        }
        i = i + 1;
    }
    assert(all.take(parts.len() as int) =~= all);
    r
}



/// The pieces of `s` between occurrences of `c` (`str::split` with a
/// character): one more piece than there are `c`s, empty pieces included.
pub open spec fn split_spec(s: Seq<char>, c: char) -> Seq<Seq<char>>
    decreases s.len(),
{
    if s.len() == 0 {
        seq![Seq::empty()]
    } else if s.last() == c {
        split_spec(s.drop_last(), c).push(Seq::empty())
    } else {
        let r = split_spec(s.drop_last(), c);
        r.update(r.len() - 1, r.last().push(s.last()))
    }
}

/// Splitting always yields at least one piece.
pub proof fn lemma_split_nonempty(s: Seq<char>, c: char)
    ensures
        split_spec(s, c).len() >= 1,
    decreases s.len(),
{
    if s.len() > 0 {
        lemma_split_nonempty(s.drop_last(), c);
    }
}

/// A text without `c` is a single piece.
pub proof fn lemma_split_without(s: Seq<char>, c: char)
    requires
        !s.contains(c),
    ensures
        split_spec(s, c) == seq![s],
    decreases s.len(),
{
    if s.len() > 0 {
        assert(s.last() == s[s.len() - 1]);
        assert(!s.drop_last().contains(c)) by {
            if s.drop_last().contains(c) {
                let i = choose|i: int| 0 <= i < s.drop_last().len() && s.drop_last()[i] == c;
                assert(s[i] == c);
            }
        }
        lemma_split_without(s.drop_last(), c);
        assert(s.last() != c) by {
            if s.last() == c {
                assert(s[s.len() - 1] == c);
                assert(s.contains(c));
            }
        }
        assert(s.drop_last().push(s.last()) =~= s);
        let r = split_spec(s.drop_last(), c);
        assert(r.len() == 1 && r.last() == s.drop_last());
        assert(split_spec(s, c) == r.update(0, s.drop_last().push(s.last())));
        assert(r.update(0, s) =~= seq![s]);
    } else {
        assert(s =~= Seq::<char>::empty());
    }
}

/// Splitting a text that ends in `c` and then more: the pieces before that
/// `c`, then the pieces of the rest.
pub proof fn lemma_split_after(a: Seq<char>, b: Seq<char>, c: char)
    requires
        a.len() > 0,
        a.last() == c,
    ensures
        split_spec(a + b, c) == split_spec(a.drop_last(), c) + split_spec(b, c),
    decreases b.len(),
{
    if b.len() == 0 {
        assert(a + b =~= a);
    } else {
        assert((a + b).drop_last() =~= a + b.drop_last());
        assert((a + b).last() == b.last());
        lemma_split_after(a, b.drop_last(), c);
        lemma_split_nonempty(b.drop_last(), c);
        let x = split_spec(a.drop_last(), c);
        let y = split_spec(b.drop_last(), c);
        if b.last() == c {
            assert(split_spec(a + b, c) =~= x + y.push(Seq::empty()));
        } else {
            assert((x + y).update((x + y).len() - 1, (x + y).last().push(b.last())) =~= x + y.update(
                y.len() - 1,
                y.last().push(b.last()),
            ));
        }
    }
}

/// Pieces on both sides of one `c`.
pub proof fn lemma_split_around(a: Seq<char>, b: Seq<char>, c: char)
    ensures
        split_spec(a + seq![c] + b, c) == split_spec(a, c) + split_spec(b, c),
{
    let ac = a + seq![c];
    assert(ac.drop_last() =~= a);
    assert(a + seq![c] + b =~= ac + b);
    lemma_split_after(ac, b, c);
}

/// Text joined by a one-character separator splits back into its parts when
/// no part holds the separator.
pub proof fn lemma_split_join(parts: Seq<Seq<char>>, c: char)
    requires
        parts.len() > 0,
        forall|i: int| 0 <= i < parts.len() ==> !(#[trigger] parts[i]).contains(c),
    ensures
        split_spec(join_spec(parts, seq![c]), c) == parts,
    decreases parts.len(),
{
    if parts.len() == 1 {
        lemma_split_without(parts[0], c);
        assert(seq![parts[0]] =~= parts);
    } else {
        let prev = parts.drop_last();
        assert forall|i: int| 0 <= i < prev.len() implies !(#[trigger] prev[i]).contains(c) by {
            assert(prev[i] == parts[i]);
        }
        lemma_split_join(prev, c);
        assert(parts.last() == parts[parts.len() - 1]);
        lemma_split_without(parts.last(), c);
        lemma_split_around(join_spec(prev, seq![c]), parts.last(), c);
        assert(prev + seq![parts.last()] =~= parts);
    }
}

/// Text joined by a one-character separator splits back into its parts when
/// no part holds the separator.
pub proof fn law_join_splits_back(parts: Seq<Seq<char>>, c: char)
    requires
        parts.len() > 0,
        forall|i: int| 0 <= i < parts.len() ==> !(#[trigger] parts[i]).contains(c),
    ensures
        split_spec(join_spec(parts, seq![c]), c) == parts,
{
    lemma_split_join(parts, c);
}

/// The decimal digit for `d < 10`.
pub open spec fn digit_char(d: nat) -> char {
    if d == 0 {
        '0'
    } else if d == 1 {
        '1'
    } else if d == 2 {
        '2'
    } else if d == 3 {
        '3'
    } else if d == 4 {
        '4'
    } else if d == 5 {
        '5'
    } else if d == 6 {
        '6'
    } else if d == 7 {
        '7'
    } else if d == 8 {
        '8'
    } else {
        '9'
    }
}

/// The decimal notation of `n`, without leading zeros (`Display` of an
/// unsigned integer).
pub open spec fn decimal_spec(n: nat) -> Seq<char>
    decreases n,
{
    if n < 10 {
        seq![digit_char(n)]
    } else {
        decimal_spec(n / 10).push(digit_char(n % 10))
    }
}

/// The decimal notation of `n`, with a leading `-` when it is negative
/// (`Display` of a signed integer).
pub open spec fn signed_decimal_spec(n: int) -> Seq<char> {
    if n < 0 {
        seq!['-'] + decimal_spec((-n) as nat)
    } else {
        decimal_spec(n as nat)
    }
}

/// The one-digit text of `d`.
fn digit_text(d: u64) -> (t: &'static str)
    requires
        d < 10,
    ensures
        t@ == seq![digit_char(d as nat)],
{
    proof {
        reveal_strlit("0");
        reveal_strlit("1");
        reveal_strlit("2");
        reveal_strlit("3");
        reveal_strlit("4");
        reveal_strlit("5");
        reveal_strlit("6");
        reveal_strlit("7");
        reveal_strlit("8");
        reveal_strlit("9");
    }
    let t = if d == 0 {
        "0"
    } else if d == 1 {
        "1"
    } else if d == 2 {
        "2"
    } else if d == 3 {
        "3"
    } else if d == 4 {
        "4"
    } else if d == 5 {
        "5"
    } else if d == 6 {
        "6"
    } else if d == 7 {
        "7"
    } else if d == 8 {
        "8"
    } else {
        "9"
    };
    assert(t@ =~= seq![digit_char(d as nat)]);
    t
}

/// The decimal notation of `n`.
pub fn decimal(n: u64) -> (r: String)
    ensures
        r@ == decimal_spec(n as nat),
    decreases n,
{
    if n < 10 {
        String::from_str(digit_text(n))
    } else {
        let mut r = decimal(n / 10);
        r.append(digit_text(n % 10));
        r
    }
}

/// The decimal notation of `n`, signed.
pub fn signed_decimal(n: i64) -> (r: String)
    ensures
        r@ == signed_decimal_spec(n as int),
{
    if n < 0 {
        proof {
            reveal_strlit("-");
        }
        let magnitude: u64 = if n == i64::MIN {
            9223372036854775808u64
        } else {
            (-n) as u64
        };
        let mut r = String::from_str("-");
        r.append(decimal(magnitude).as_str());
        assert(r@ =~= signed_decimal_spec(n as int));
        r
    } else {
        decimal(n as u64)
    }
}


/// `lines`, each followed by a line break.
pub open spec fn lines_text(lines: Seq<Seq<char>>) -> Seq<char>
    decreases lines.len(),
{
    if lines.len() == 0 {
        Seq::empty()
    } else {
        lines_text(lines.drop_last()) + lines.last() + seq!['\n']
    }
}

/// Text made of lines, each ended by a line break, splits at line breaks
/// into those lines and an empty last piece.
pub proof fn lemma_split_lines(lines: Seq<Seq<char>>)
    requires
        forall|i: int| 0 <= i < lines.len() ==> !(#[trigger] lines[i]).contains('\n'),
    ensures
        split_spec(lines_text(lines), '\n') == lines + seq![Seq::<char>::empty()],
    decreases lines.len(),
{
    let empty = Seq::<char>::empty();
    if lines.len() == 0 {
        assert(lines + seq![empty] =~= seq![empty]);
    } else {
        let prev = lines.drop_last();
        let last = lines.last();
        assert forall|i: int| 0 <= i < prev.len() implies !(#[trigger] prev[i]).contains('\n') by {
            assert(prev[i] == lines[i]);
        }
        assert(last == lines[lines.len() - 1]);
        lemma_split_lines(prev);
        lemma_split_without(last, '\n');
        let lp = lines_text(prev);
        let a = lp + last;
        assert(lines_text(lines) =~= a + seq!['\n'] + empty);
        lemma_split_around(a, empty, '\n');
        assert(split_spec(empty, '\n') =~= seq![empty]);
        if prev.len() == 0 {
            assert(a =~= last);
        } else {
            assert(lp.last() == '\n');
            assert(lp =~= lp.drop_last() + seq!['\n'] + empty);
            lemma_split_around(lp.drop_last(), empty, '\n');
            let x = split_spec(lp.drop_last(), '\n');
            assert(x + seq![empty] == prev + seq![empty]);
            assert((x + seq![empty]).drop_last() =~= x);
            assert((prev + seq![empty]).drop_last() =~= prev);
            assert(x =~= prev);
            lemma_split_after(lp, last, '\n');
        }
        assert(prev + seq![last] + seq![empty] =~= lines + seq![empty]);
    }
}

/// The decimal notation of a number holds only digits, at least one.
pub proof fn lemma_decimal_digits(n: nat)
    ensures
        decimal_spec(n).len() >= 1,
        forall|i: int| 0 <= i < decimal_spec(n).len() ==> '0' <= #[trigger] decimal_spec(n)[i] <= '9',
    decreases n,
{
    if n >= 10 {
        lemma_decimal_digits(n / 10);
    }
}

/// The decimal notation of a number holds no line break.
pub proof fn lemma_decimal_one_line(n: nat)
    ensures
        !decimal_spec(n).contains('\n'),
{
    lemma_decimal_digits(n);
}

/// The signed decimal notation of a number holds no line break.
pub proof fn lemma_signed_decimal_one_line(n: int)
    ensures
        !signed_decimal_spec(n).contains('\n'),
{
    if n < 0 {
        lemma_decimal_digits((-n) as nat);
        assert forall|i: int| 0 <= i < signed_decimal_spec(n).len() implies signed_decimal_spec(n)[i] != '\n' by {
            if i > 0 {
                assert(signed_decimal_spec(n)[i] == decimal_spec((-n) as nat)[i - 1]);
            }
        }
    } else {
        lemma_decimal_digits(n as nat);
    }
}

/// Joining two texts without a line break gives none.
pub proof fn lemma_concat_one_line(a: Seq<char>, b: Seq<char>)
    requires
        !a.contains('\n'),
        !b.contains('\n'),
    ensures
        !(a + b).contains('\n'),
{
    assert forall|i: int| 0 <= i < (a + b).len() implies (a + b)[i] != '\n' by {
        if i < a.len() {
            assert((a + b)[i] == a[i]);
        } else {
            assert((a + b)[i] == b[i - a.len()]);
        }
    }
}


/// Leading whitespace makes no difference to `trim_start`.
proof fn lemma_trim_start_after_ws(ws: Seq<char>, x: Seq<char>)
    requires
        forall|i: int| 0 <= i < ws.len() ==> is_ws(#[trigger] ws[i]),
    ensures
        trim_start_spec(ws + x) == trim_start_spec(x),
    decreases ws.len(),
{
    if ws.len() == 0 {
        assert(ws + x =~= x);
    } else {
        assert((ws + x)[0] == ws[0]);
        assert((ws + x).drop_first() =~= ws.drop_first() + x);
        lemma_trim_start_after_ws(ws.drop_first(), x);
    }
}

/// Trailing whitespace makes no difference to `trim_end`.
proof fn lemma_trim_end_before_ws(x: Seq<char>, ws: Seq<char>)
    requires
        forall|i: int| 0 <= i < ws.len() ==> is_ws(#[trigger] ws[i]),
    ensures
        trim_end_spec(x + ws) == trim_end_spec(x),
    decreases ws.len(),
{
    if ws.len() == 0 {
        assert(x + ws =~= x);
    } else {
        assert((x + ws).last() == ws.last());
        assert(ws.last() == ws[ws.len() - 1]);
        assert((x + ws).drop_last() =~= x + ws.drop_last());
        lemma_trim_end_before_ws(x, ws.drop_last());
    }
}

/// What `trim_start` does to a text followed by more.
proof fn lemma_trim_start_append(x: Seq<char>, b: Seq<char>)
    ensures
        trim_start_spec(x).len() > 0 ==> trim_start_spec(x + b) == trim_start_spec(x) + b,
        trim_start_spec(x).len() == 0 ==> trim_start_spec(x + b) == trim_start_spec(b),
    decreases x.len(),
{
    if x.len() == 0 {
        assert(x + b =~= b);
    } else {
        assert((x + b)[0] == x[0]);
        if is_ws(x[0]) {
            assert((x + b).drop_first() =~= x.drop_first() + b);
            lemma_trim_start_append(x.drop_first(), b);
        }
    }
}

/// Whitespace before and after a text makes no difference to `trim`.
pub proof fn law_trim_ignores_surrounding_whitespace(ws1: Seq<char>, t: Seq<char>, ws2: Seq<char>)
    requires
        forall|i: int| 0 <= i < ws1.len() ==> is_ws(#[trigger] ws1[i]),
        forall|i: int| 0 <= i < ws2.len() ==> is_ws(#[trigger] ws2[i]),
    ensures
        trim_spec(ws1 + t + ws2) == trim_spec(t),
{
    assert(ws1 + t + ws2 =~= ws1 + (t + ws2));
    lemma_trim_start_after_ws(ws1, t + ws2);
    lemma_trim_start_append(t, ws2);
    if trim_start_spec(t).len() > 0 {
        lemma_trim_end_before_ws(trim_start_spec(t), ws2);
    } else {
        let e = Seq::<char>::empty();
        assert(ws2 + e =~= ws2);
        lemma_trim_start_after_ws(ws2, e);
        assert(trim_start_spec(t) =~= e);
    }
}


/// The number a sequence of decimal digits denotes.
pub open spec fn digits_value(d: Seq<char>) -> int
    decreases d.len(),
{
    if d.len() == 0 {
        0
    } else {
        digits_value(d.drop_last()) * 10 + (d.last() as int - '0' as int)
    }
}

/// The decimal notation of a number holds only digits, starts with a zero
/// only for zero itself, and denotes the number.
pub proof fn law_decimal_reads_back(n: nat)
    ensures
        digits_value(decimal_spec(n)) == n,
        forall|i: int| 0 <= i < decimal_spec(n).len() ==> '0' <= #[trigger] decimal_spec(n)[i] <= '9',
        decimal_spec(n)[0] == '0' <==> n == 0,
    decreases n,
{
    lemma_decimal_digits(n);
    if n >= 10 {
        law_decimal_reads_back(n / 10);
        let d = decimal_spec(n);
        assert(d.drop_last() =~= decimal_spec(n / 10));
        assert(d[0] == decimal_spec(n / 10)[0]);
    }
    let r = (n % 10) as nat;
    assert(digit_char(r) as int - '0' as int == r) by {
        if r == 0 {} else if r == 1 {} else if r == 2 {} else if r == 3 {} else if r == 4 {}
        else if r == 5 {} else if r == 6 {} else if r == 7 {} else if r == 8 {} else {}
    }
    if n < 10 {
        assert(digits_value(decimal_spec(n)) == digits_value(Seq::<char>::empty()) * 10 + (digit_char(n) as int - '0' as int)) by {
            assert(decimal_spec(n).drop_last() =~= Seq::<char>::empty());
        }
    }
}

/// `trim_start` drops a whitespace prefix and stops at a character that is
/// not whitespace.
proof fn lemma_trim_start_shape(s: Seq<char>) -> (k: nat)
    ensures
        k <= s.len(),
        s == s.take(k as int) + trim_start_spec(s),
        forall|i: int| 0 <= i < k ==> is_ws(#[trigger] s[i]),
        trim_start_spec(s).len() > 0 ==> !is_ws(trim_start_spec(s)[0]),
    decreases s.len(),
{
    if s.len() > 0 && is_ws(s[0]) {
        let k0 = lemma_trim_start_shape(s.drop_first());
        assert forall|i: int| 0 <= i < k0 + 1 implies is_ws(#[trigger] s[i]) by {
            if i > 0 {
                assert(s[i] == s.drop_first()[i - 1]);
            }
        }
        let d = s.drop_first();
        assert(s.take(k0 + 1int) =~= seq![s[0]] + d.take(k0 as int));
        assert(s =~= seq![s[0]] + d);
        assert(s =~= s.take(k0 + 1int) + trim_start_spec(s));
        (k0 + 1) as nat
    } else {
        assert(s =~= s.take(0) + s);
        0
    }
}

/// `trim_end` drops a whitespace suffix and stops at a character that is
/// not whitespace.
proof fn lemma_trim_end_shape(s: Seq<char>) -> (k: nat)
    ensures
        k <= s.len(),
        s == trim_end_spec(s) + s.skip(s.len() - k),
        forall|i: int| s.len() - k <= i < s.len() ==> is_ws(#[trigger] s[i]),
        trim_end_spec(s).len() > 0 ==> !is_ws(trim_end_spec(s).last()),
    decreases s.len(),
{
    if s.len() > 0 && is_ws(s.last()) {
        let k0 = lemma_trim_end_shape(s.drop_last());
        assert forall|i: int| s.len() - (k0 + 1) <= i < s.len() implies is_ws(#[trigger] s[i]) by {
            if i < s.len() - 1 {
                assert(s[i] == s.drop_last()[i]);
            }
        }
        let t = s.drop_last();
        assert(s.skip(s.len() - (k0 + 1)) =~= t.skip(t.len() - k0) + seq![s.last()]);
        assert(s =~= t + seq![s.last()]);
        assert(s =~= trim_end_spec(s) + s.skip(s.len() - (k0 + 1)));
        (k0 + 1) as nat
    } else {
        assert(s =~= s + s.skip(s.len() as int));
        0
    }
}

/// `trim` removes whitespace at the two ends and nothing else: the text is
/// whitespace, then the trimmed text, then whitespace, and the trimmed text
/// neither starts nor ends with whitespace.
pub proof fn law_trim_removes_only_edge_whitespace(s: Seq<char>)
    ensures
        exists|a: Seq<char>, b: Seq<char>|
            {
                &&& s == a + trim_spec(s) + b
                &&& forall|i: int| 0 <= i < a.len() ==> is_ws(#[trigger] a[i])
                &&& forall|i: int| 0 <= i < b.len() ==> is_ws(#[trigger] b[i])
            },
        trim_spec(s).len() > 0 ==> !is_ws(trim_spec(s)[0]) && !is_ws(trim_spec(s).last()),
{
    let k = lemma_trim_start_shape(s);
    let t = trim_start_spec(s);
    let j = lemma_trim_end_shape(t);
    let a = s.take(k as int);
    let b = t.skip(t.len() - j);
    assert(s =~= a + trim_spec(s) + b);
    assert forall|i: int| 0 <= i < a.len() implies is_ws(#[trigger] a[i]) by {
        assert(a[i] == s[i]);
    }
    assert forall|i: int| 0 <= i < b.len() implies is_ws(#[trigger] b[i]) by {
        assert(b[i] == t[t.len() - j + i]);
    }
    if trim_spec(s).len() > 0 {
        assert(trim_spec(s)[0] == t[0]);
    }
}

} // verus!
