//! Minimal reading of the flat JSON that `cadence list --json` prints: the
//! top-level brace-delimited objects of a text, and the string value of a
//! field inside one flat object (no nesting, no escapes).

use vstd::prelude::*;
use crate::text::{chars_of, find_after, find_from, find_spec, is_ws, lemma_find_from, skip_ws, trim_start_spec};

verus! {

/// State of the brace scanner after a prefix of the text: nesting depth,
/// where the open top-level object began, and the objects closed so far.
pub ghost struct BraceScan {
    pub depth: nat,
    pub start: Option<int>,
    pub objects: Seq<Seq<char>>,
}

/// The scanner's state before any character.
pub open spec fn scan_init() -> BraceScan {
    BraceScan { depth: 0, start: None, objects: Seq::empty() }
}

/// One character of the scan: `{` opens (and at depth 0 marks the start of an
/// object), `}` closes (never below depth 0) and, on reaching depth 0, emits
/// the object that began at the marked start; other characters change nothing.
pub open spec fn scan_step(st: BraceScan, s: Seq<char>, i: int) -> BraceScan {
    if s[i] == '{' {
        BraceScan {
            depth: st.depth + 1,
            start: if st.depth == 0 { Some(i) } else { st.start },
            objects: st.objects,
        }
    } else if s[i] == '}' {
        let d: nat = if st.depth > 0 { (st.depth - 1) as nat } else { 0 };
        if d == 0 {
            BraceScan {
                depth: 0,
                start: None,
                objects: match st.start {
                    Some(b) => st.objects.push(s.subrange(b, i + 1)),
                    None => st.objects,
                },
            }
        } else {
            BraceScan { depth: d, start: st.start, objects: st.objects }
        }
    } else {
        st
    }
}

/// The scanner's state after the first `n` characters of `s`.
pub open spec fn scan_prefix(s: Seq<char>, n: nat) -> BraceScan
    decreases n,
{
    if n == 0 {
        scan_init()
    } else {
        scan_step(scan_prefix(s, (n - 1) as nat), s, n - 1)
    }
}

/// The top-level objects of `s`, in the order they close.
pub open spec fn objects_spec(s: Seq<char>) -> Seq<Seq<char>> {
    scan_prefix(s, s.len()).objects
}

/// Split a JSON array text into the texts of its top-level objects.
pub fn extract_objects(json: &str) -> (objects: Vec<String>)
    ensures
        objects@.map_values(|o: String| o@) == objects_spec(json@),
{
    let v = chars_of(json);
    let mut objects: Vec<String> = Vec::new();
    let mut depth: usize = 0;
    let mut start: Option<usize> = None;
    let mut i: usize = 0;
    while i < v.len()
        invariant
            i <= v.len(),
            v@ == json@,
            depth <= i,
            depth == scan_prefix(json@, i as nat).depth,
            match start {
                Some(b) => scan_prefix(json@, i as nat).start == Some(b as int) && b < i,
                None => scan_prefix(json@, i as nat).start is None,
            },
            objects@.map_values(|o: String| o@) == scan_prefix(json@, i as nat).objects,
        decreases v.len() - i,
    {
        let ch = v[i];
        let ghost before = objects@.map_values(|o: String| o@);
        if ch == '{' {
            if depth == 0 {
                start = Some(i);
            }
            depth = depth.saturating_add(1);
        } else if ch == '}' {
            depth = depth.saturating_sub(1);
            if depth == 0 {
                if let Some(b) = start {
                    let object = json.substring_char(b, i + 1).to_owned();
                    objects.push(object);
                    assert(objects@.map_values(|o: String| o@) =~= before.push(
                        json@.subrange(b as int, i + 1),
                    ));
                }
                start = None;
            }
        }
        i = i + 1;
    }
    objects
}


/// The pattern a field's key is found by: the key in double quotes.
pub open spec fn quoted(key: Seq<char>) -> Seq<char> {
    seq!['"'] + key + seq!['"']
}

/// The string value of field `key` in the flat object `obj`: after the first
/// occurrence of the quoted key comes the first `:`; after it, past any
/// whitespace, a `"` must open the value, which runs to the next `"`.
pub open spec fn str_field_spec(obj: Seq<char>, key: Seq<char>) -> Option<Seq<char>> {
    match find_spec(obj, quoted(key)) {
        None => None,
        Some(p) => {
            let after_key = obj.skip(p + quoted(key).len());
            match find_spec(after_key, seq![':']) {
                None => None,
                Some(c) => {
                    let after_colon = trim_start_spec(after_key.skip(c + 1));
                    if after_colon.len() > 0 && after_colon[0] == '"' {
                        let inner = after_colon.drop_first();
                        match find_spec(inner, seq!['"']) {
                            None => None,
                            Some(e) => Some(inner.take(e)),
                        }
                    } else {
                        None
                    }
                },
            }
        },
    }
}

/// Extract the string value of field `key` from a flat JSON object (no
/// nesting, no escapes).
pub fn extract_str_field(obj: &str, key: &str) -> (value: Option<String>)
    ensures
        match str_field_spec(obj@, key@) {
            Some(s) => value matches Some(v) && v@ == s,
            None => value is None,
        },
{
    proof {
        reveal_strlit("\"");
    }
    let mut needle = String::from_str("\"");
    needle.append(key);
    needle.append("\"");
    assert(needle@ =~= quoted(key@));
    let v = chars_of(obj);
    let pat = chars_of(needle.as_str());
    let pos: usize = match find_after(&v, 0, &pat) {
        Some(p) => p,
        None => {
            assert(v@.skip(0) =~= v@);
            return None;
        },
    };
    proof {
        assert(v@.skip(0) =~= v@);
        lemma_find_from(v@, pat@, 0);
    }
    let after_key: usize = pos + pat.len();
    let colon = vec![':'];
    assert(colon@ =~= seq![':']);
    let c: usize = match find_after(&v, after_key, &colon) {
        Some(c) => c,
        None => return None,
    };
    proof {
        lemma_find_from(v@.skip(after_key as int), colon@, 0);
    }
    let after_colon: usize = after_key + c + 1;
    assert(v@.skip(after_key as int).skip(c + 1) =~= v@.skip(after_colon as int));
    let i: usize = skip_ws(&v, after_colon);
    if i < v.len() && v[i] == '"' {
        let quote = vec!['"'];
        assert(quote@ =~= seq!['"']);
        assert(v@.skip(i as int).drop_first() =~= v@.skip(i + 1));
        let e: usize = match find_after(&v, i + 1, &quote) {
            Some(e) => e,
            None => return None,
        };
        proof {
            lemma_find_from(v@.skip(i + 1), quote@, 0);
        }
        assert(v@.skip(i + 1).take(e as int) =~= v@.subrange(i + 1, i + 1 + e));
        Some(obj.substring_char(i + 1, i + 1 + e).to_owned())
    } else {
        None
    }
}


/// Every object found so far is a piece of `s` that opens with `{` and
/// closes with `}`, and an open object began at a `{` already read.
proof fn lemma_scan_shape(s: Seq<char>, n: nat)
    requires
        n <= s.len(),
    ensures
        forall|k: int|
            0 <= k < scan_prefix(s, n).objects.len() ==> {
                let o = #[trigger] scan_prefix(s, n).objects[k];
                &&& o.len() >= 2
                &&& o[0] == '{'
                &&& o.last() == '}'
                &&& exists|a: int| 0 <= a && a + o.len() <= n && #[trigger] s.subrange(a, a + o.len()) == o
            },
        scan_prefix(s, n).start matches Some(b) ==> 0 <= b < n && s[b] == '{',
    decreases n,
{
    if n > 0 {
        let m: nat = (n - 1) as nat;
        lemma_scan_shape(s, m);
        let prev = scan_prefix(s, m);
        let cur = scan_prefix(s, n);
        assert forall|k: int| 0 <= k < cur.objects.len() implies {
            let o = #[trigger] cur.objects[k];
            &&& o.len() >= 2
            &&& o[0] == '{'
            &&& o.last() == '}'
            &&& exists|a: int| 0 <= a && a + o.len() <= n && #[trigger] s.subrange(a, a + o.len()) == o
        } by {
            if k < prev.objects.len() {
                assert(cur.objects[k] == prev.objects[k]);
                let o = prev.objects[k];
                let a: int = choose|a: int| 0 <= a && a + o.len() <= m && #[trigger] s.subrange(a, a + o.len()) == o;
                assert(0 <= a && a + o.len() <= n && s.subrange(a, a + o.len()) == o);
            } else {
                let b: int = prev.start->0;
                let o = s.subrange(b, m + 1int);
                assert(cur.objects[k] == o);
                assert(s.subrange(b, b + o.len()) == o);
            }
        }
    }
}

/// Each object found in a text is a piece of that text that opens with `{`
/// and closes with `}`.
pub proof fn law_objects_are_braced_pieces(s: Seq<char>)
    ensures
        forall|k: int|
            0 <= k < objects_spec(s).len() ==> {
                let o = #[trigger] objects_spec(s)[k];
                &&& o.len() >= 2
                &&& o[0] == '{'
                &&& o.last() == '}'
                &&& exists|a: int| 0 <= a && a + o.len() <= s.len() && #[trigger] s.subrange(a, a + o.len()) == o
            },
{
    lemma_scan_shape(s, s.len());
}

/// A search that passes no match before `m` and matches at `m` finds `m`.
proof fn lemma_find_at(s: Seq<char>, pat: Seq<char>, i: int, m: int)
    requires
        0 <= i <= m,
        m + pat.len() <= s.len(),
        s.subrange(m, m + pat.len()) == pat,
        forall|q: int| i <= q < m ==> #[trigger] s.subrange(q, q + pat.len()) != pat,
    ensures
        find_from(s, pat, i) == Some(m),
    decreases m - i,
{
    if i < m {
        assert(s.subrange(i, i + pat.len()) != pat);
        lemma_find_at(s, pat, i + 1, m);
    }
}

/// Leading whitespace is what `trim_start` drops.
proof fn lemma_trim_start_ws(ws: Seq<char>, t: Seq<char>)
    requires
        forall|i: int| 0 <= i < ws.len() ==> is_ws(#[trigger] ws[i]),
        t.len() > 0,
        !is_ws(t[0]),
    ensures
        trim_start_spec(ws + t) == t,
    decreases ws.len(),
{
    if ws.len() == 0 {
        assert(ws + t =~= t);
    } else {
        assert((ws + t).drop_first() =~= ws.drop_first() + t);
        lemma_trim_start_ws(ws.drop_first(), t);
    }
}

/// A field written the way `cadence` writes one, `"key":"value"` right after
/// the opening brace, with any whitespace after the colon, reads back as its
/// value, whatever follows it, as long as neither key nor value holds a `"`.
pub proof fn law_written_field_reads_back(key: Seq<char>, ws: Seq<char>, value: Seq<char>, rest: Seq<char>)
    requires
        !key.contains('"'),
        !value.contains('"'),
        forall|i: int| 0 <= i < ws.len() ==> is_ws(#[trigger] ws[i]),
    ensures
        str_field_spec(seq!['{'] + quoted(key) + seq![':'] + ws + quoted(value) + rest, key) == Some(value),
{
    let obj = seq!['{'] + quoted(key) + seq![':'] + ws + quoted(value) + rest;
    let pat = quoted(key);
    assert(obj.subrange(0, pat.len() as int)[0] == '{');
    assert(obj.subrange(1, 1 + pat.len() as int) =~= pat);
    lemma_find_at(obj, pat, 0, 1);
    let after_key = obj.skip(1 + pat.len() as int);
    assert(after_key =~= seq![':'] + ws + quoted(value) + rest);
    assert(after_key.subrange(0, 1) =~= seq![':']);
    lemma_find_at(after_key, seq![':'], 0, 0);
    let tail = quoted(value) + rest;
    assert(after_key.skip(1) =~= ws + tail);
    assert(tail[0] == '"');
    lemma_trim_start_ws(ws, tail);
    let inner = tail.drop_first();
    assert(inner =~= value + seq!['"'] + rest);
    assert(inner.subrange(value.len() as int, value.len() + 1int) =~= seq!['"']);
    assert forall|q: int| 0 <= q < value.len() implies #[trigger] inner.subrange(q, q + 1) != seq!['"'] by {
        assert(inner.subrange(q, q + 1)[0] == value[q]);
        if value[q] == '"' {
            assert(value.contains('"'));
        }
    }
    lemma_find_at(inner, seq!['"'], 0, value.len() as int);
    assert(inner.take(value.len() as int) =~= value);
}


/// A field whose quoted key does not occur before `pre` ends reads as the
/// string after the first `:` that follows the key, when what lies between
/// holds no `:` and the value holds no `"`.
pub proof fn lemma_field_after_gap(
    pre: Seq<char>,
    key: Seq<char>,
    gap: Seq<char>,
    value: Seq<char>,
    rest: Seq<char>,
)
    requires
        forall|q: int|
            0 <= q < pre.len() ==> #[trigger] (pre + quoted(key) + gap + seq![':'] + quoted(value)
                + rest).subrange(q, q + quoted(key).len()) != quoted(key),
        !gap.contains(':'),
        !value.contains('"'),
    ensures
        str_field_spec(pre + quoted(key) + gap + seq![':'] + quoted(value) + rest, key) == Some(value),
{
    let obj = pre + quoted(key) + gap + seq![':'] + quoted(value) + rest;
    let pat = quoted(key);
    assert(obj.subrange(pre.len() as int, pre.len() + pat.len() as int) =~= pat);
    lemma_find_at(obj, pat, 0, pre.len() as int);
    let after_key = obj.skip(pre.len() + pat.len() as int);
    assert(after_key =~= gap + seq![':'] + quoted(value) + rest);
    assert(after_key.subrange(gap.len() as int, gap.len() + 1int) =~= seq![':']);
    assert forall|q: int| 0 <= q < gap.len() implies #[trigger] after_key.subrange(q, q + 1) != seq![':'] by {
        assert(after_key.subrange(q, q + 1)[0] == gap[q]);
        if gap[q] == ':' {
            assert(gap.contains(':'));
        }
    }
    lemma_find_at(after_key, seq![':'], 0, gap.len() as int);
    let tail = quoted(value) + rest;
    assert(after_key.skip(gap.len() + 1int) =~= tail);
    assert(tail[0] == '"');
    assert(trim_start_spec(tail) == tail);
    let inner = tail.drop_first();
    assert(inner =~= value + seq!['"'] + rest);
    assert(inner.subrange(value.len() as int, value.len() + 1int) =~= seq!['"']);
    assert forall|q: int| 0 <= q < value.len() implies #[trigger] inner.subrange(q, q + 1) != seq!['"'] by {
        assert(inner.subrange(q, q + 1)[0] == value[q]);
        if value[q] == '"' {
            assert(value.contains('"'));
        }
    }
    lemma_find_at(inner, seq!['"'], 0, value.len() as int);
    assert(inner.take(value.len() as int) =~= value);
}

/// A character other than a brace leaves the scan as it was.
pub proof fn lemma_scan_passes(s: Seq<char>, j: nat)
    requires
        j < s.len(),
        s[j as int] != '{',
        s[j as int] != '}',
    ensures
        scan_prefix(s, j + 1) == scan_prefix(s, j),
{
}

/// Inside a brace-free object body that opened at `n`, the scan stays at
/// depth one with the object's start marked.
proof fn lemma_scan_inside(s: Seq<char>, n: nat, j: nat)
    requires
        n < j < s.len(),
        scan_prefix(s, n).depth == 0,
        s[n as int] == '{',
        forall|k: int| n < k < j ==> s[k] != '{' && s[k] != '}',
    ensures
        scan_prefix(s, j) == (BraceScan {
            depth: 1,
            start: Some(n as int),
            objects: scan_prefix(s, n).objects,
        }),
    decreases j,
{
    if j > n + 1 {
        lemma_scan_inside(s, n, (j - 1) as nat);
        lemma_scan_passes(s, (j - 1) as nat);
    }
}

/// From depth zero, a `{`, a brace-free body and a `}` add that object to
/// the scan and bring it back to depth zero.
pub proof fn lemma_scan_object(s: Seq<char>, n: nat, m: nat)
    requires
        n + 2 <= m <= s.len(),
        scan_prefix(s, n).depth == 0,
        s[n as int] == '{',
        s[m - 1] == '}',
        forall|k: int| n < k < m - 1 ==> s[k] != '{' && s[k] != '}',
    ensures
        scan_prefix(s, m) == (BraceScan {
            depth: 0,
            start: None,
            objects: scan_prefix(s, n).objects.push(s.subrange(n as int, m as int)),
        }),
{
    lemma_scan_inside(s, n, (m - 1) as nat);
}

} // verus!
