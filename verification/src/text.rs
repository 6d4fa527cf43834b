//! Character-level text helpers for the configuration codec: whitespace
//! trimming, locating a separator, and splitting on one, each as a spec
//! function over `Seq<char>` with a verified executable counterpart.

use vstd::prelude::*;

verus! {

/// The whitespace characters the codec trims around fields and lines.
pub open spec fn spec_is_ws(c: char) -> bool {
    c == ' ' || c == '\t' || c == '\n' || c == '\r'
}

fn is_ws(c: char) -> (r: bool)
    ensures
        r == spec_is_ws(c),
{
    c == ' ' || c == '\t' || c == '\n' || c == '\r'
}

/// `s` without its leading whitespace.
pub open spec fn spec_trim_start(s: Seq<char>) -> Seq<char>
    decreases s.len(),
{
    if s.len() > 0 && spec_is_ws(s[0]) {
        spec_trim_start(s.drop_first())
    } else {
        s
    }
}

/// `s` without its trailing whitespace.
pub open spec fn spec_trim_end(s: Seq<char>) -> Seq<char>
    decreases s.len(),
{
    if s.len() > 0 && spec_is_ws(s.last()) {
        spec_trim_end(s.drop_last())
    } else {
        s
    }
}

/// `s` without leading and trailing whitespace.
pub open spec fn spec_trim(s: Seq<char>) -> Seq<char> {
    spec_trim_end(spec_trim_start(s))
}

pub proof fn lemma_trim_start_skip(s: Seq<char>, i: int)
    requires
        0 <= i <= s.len(),
        forall|k: int| 0 <= k < i ==> spec_is_ws(#[trigger] s[k]),
    ensures
        spec_trim_start(s) == spec_trim_start(s.subrange(i, s.len() as int)),
    decreases i,
{
    if i == 0 {
        assert(s.subrange(0, s.len() as int) =~= s);
    } else {
        let t = s.drop_first();
        lemma_trim_start_skip(t, i - 1);
        assert(t.subrange(i - 1, t.len() as int) =~= s.subrange(i, s.len() as int));
    }
}

pub proof fn lemma_trim_end_skip(s: Seq<char>, j: int)
    requires
        0 <= j <= s.len(),
        forall|k: int| j <= k < s.len() ==> spec_is_ws(#[trigger] s[k]),
    ensures
        spec_trim_end(s) == spec_trim_end(s.subrange(0, j)),
    decreases s.len() - j,
{
    if j == s.len() {
        assert(s.subrange(0, j) =~= s);
    } else {
        let t = s.drop_last();
        lemma_trim_end_skip(t, j);
        assert(t.subrange(0, j) =~= s.subrange(0, j));
    }
}

/// `s` with leading and trailing whitespace removed.
pub fn trim_str<'a>(s: &'a str) -> (r: &'a str)
    ensures
        r@ == spec_trim(s@),
{
    let len = s.unicode_len();
    let mut i: usize = 0;
    while i < len && is_ws(s.get_char(i))
        invariant
            len == s@.len(),
            i <= len,
            forall|k: int| 0 <= k < i ==> spec_is_ws(#[trigger] s@[k]),
        decreases len - i,
    {
        i += 1;
    }
    let mut j: usize = len;
    while j > i && is_ws(s.get_char(j - 1))
        invariant
            len == s@.len(),
            i <= j <= len,
            forall|k: int| j <= k < len ==> spec_is_ws(#[trigger] s@[k]),
        decreases j,
    {
        j -= 1;
    }
    let r = s.substring_char(i, j);
    proof {
        let t = s@.subrange(i as int, len as int);
        lemma_trim_start_skip(s@, i as int);
        if i < len {
            assert(!spec_is_ws(t[0]));
        }
        assert(spec_trim_start(t) == t);
        lemma_trim_end_skip(t, j - i);
        let u = t.subrange(0, j - i);
        if j > i {
            assert(u.last() == s@[j - 1]);
            assert(!spec_is_ws(u.last()));
        }
        assert(spec_trim_end(u) == u);
        assert(u =~= s@.subrange(i as int, j as int));
    }
    r
}

/// The index of the first occurrence of `c` in `s`, or -1 if there is
/// none.
pub open spec fn spec_find_char(s: Seq<char>, c: char) -> int
    decreases s.len(),
{
    if s.len() == 0 {
        -1
    } else if s[0] == c {
        0
    } else {
        let r = spec_find_char(s.drop_first(), c);
        if r < 0 {
            -1
        } else {
            r + 1
        }
    }
}

pub proof fn lemma_find_char_props(s: Seq<char>, c: char)
    ensures
        spec_find_char(s, c) == -1 ==> forall|k: int| 0 <= k < s.len() ==> s[k] != c,
        spec_find_char(s, c) >= 0 ==> {
            &&& spec_find_char(s, c) < s.len()
            &&& s[spec_find_char(s, c)] == c
            &&& forall|k: int| 0 <= k < spec_find_char(s, c) ==> s[k] != c
        },
    decreases s.len(),
{
    if s.len() > 0 && s[0] != c {
        let t = s.drop_first();
        lemma_find_char_props(t, c);
        if spec_find_char(s, c) == -1 {
            assert(spec_find_char(t, c) == -1);
            assert forall|k: int| 0 <= k < s.len() implies s[k] != c by {
                if k >= 1 {
                    assert(t[k - 1] == s[k]);
                    assert(t[k - 1] != c);
                }
            }
        } else {
            let r = spec_find_char(s, c);
            assert(spec_find_char(t, c) == r - 1);
            assert(s[r] == t[r - 1]);
            assert forall|k: int| 0 <= k < r implies s[k] != c by {
                if k >= 1 {
                    assert(t[k - 1] == s[k]);
                    assert(t[k - 1] != c);
                }
            }
        }
    }
}

pub proof fn lemma_find_char_at(s: Seq<char>, c: char, i: int)
    requires
        0 <= i < s.len(),
        s[i] == c,
        forall|k: int| 0 <= k < i ==> s[k] != c,
    ensures
        spec_find_char(s, c) == i,
    decreases i,
{
    if i > 0 {
        let t = s.drop_first();
        assert(forall|k: int| 0 <= k < t.len() ==> t[k] == s[k + 1]);
        lemma_find_char_at(t, c, i - 1);
    }
}

proof fn lemma_find_char_none(s: Seq<char>, c: char)
    requires
        forall|k: int| 0 <= k < s.len() ==> s[k] != c,
    ensures
        spec_find_char(s, c) == -1,
    decreases s.len(),
{
    if s.len() > 0 {
        let t = s.drop_first();
        assert(forall|k: int| 0 <= k < t.len() ==> t[k] == s[k + 1]);
        lemma_find_char_none(t, c);
    }
}

/// The position of the first occurrence of `c` in `s`, if any.
pub fn find_char(s: &str, c: char) -> (r: Option<usize>)
    ensures
        match r {
            Some(i) => i == spec_find_char(s@, c) && i < s@.len(),
            None => spec_find_char(s@, c) == -1,
        },
{
    let len = s.unicode_len();
    let mut i: usize = 0;
    while i < len
        invariant
            len == s@.len(),
            i <= len,
            forall|k: int| 0 <= k < i ==> s@[k] != c,
        decreases len - i,
    {
        if s.get_char(i) == c {
            proof {
                lemma_find_char_at(s@, c, i as int);
            }
            return Some(i);
        }
        i += 1;
    }
    proof {
        lemma_find_char_none(s@, c);
    }
    None
}

/// Character-for-character equality of two string slices.
pub fn str_eq(a: &str, b: &str) -> (r: bool)
    ensures
        r == (a@ == b@),
{
    let a_len = a.unicode_len();
    let b_len = b.unicode_len();
    if a_len != b_len {
        return false;
    }
    let mut i: usize = 0;
    while i < a_len
        invariant
            a_len == a@.len(),
            b_len == b@.len(),
            a_len == b_len,
            i <= a_len,
            forall|k: int| 0 <= k < i ==> a@[k] == b@[k],
        decreases a_len - i,
    {
        if a.get_char(i) != b.get_char(i) {
            return false;
        }
        i += 1;
    }
    proof {
        assert(a@ =~= b@);
    }
    true
}

/// The fields of `s` separated by `sep`: splitting never yields an
/// empty list, and a separator at either end yields an empty field.
pub open spec fn spec_split_char(s: Seq<char>, sep: char) -> Seq<Seq<char>>
    decreases s.len(),
{
    if s.len() == 0 {
        seq![Seq::<char>::empty()]
    } else {
        let rest = spec_split_char(s.drop_first(), sep);
        if s[0] == sep {
            seq![Seq::<char>::empty()] + rest
        } else {
            seq![seq![s[0]] + rest[0]] + rest.drop_first()
        }
    }
}

pub proof fn lemma_split_len(s: Seq<char>, sep: char)
    ensures
        spec_split_char(s, sep).len() >= 1,
    decreases s.len(),
{
    if s.len() > 0 {
        lemma_split_len(s.drop_first(), sep);
    }
}

pub proof fn lemma_split_no_sep(s: Seq<char>, sep: char)
    requires
        forall|k: int| 0 <= k < s.len() ==> s[k] != sep,
    ensures
        spec_split_char(s, sep) == seq![s],
    decreases s.len(),
{
    if s.len() == 0 {
        assert(seq![Seq::<char>::empty()] =~~= seq![s]);
    } else {
        let t = s.drop_first();
        assert(forall|k: int| 0 <= k < t.len() ==> t[k] == s[k + 1]);
        lemma_split_no_sep(t, sep);
        assert(seq![seq![s[0]] + t] + seq![t].drop_first() =~~= seq![s]);
    }
}

pub proof fn lemma_split_with_sep(cur: Seq<char>, rest: Seq<char>, sep: char)
    requires
        forall|k: int| 0 <= k < cur.len() ==> cur[k] != sep,
    ensures
        spec_split_char(cur + seq![sep] + rest, sep) == seq![cur] + spec_split_char(rest, sep),
    decreases cur.len(),
{
    let s = cur + seq![sep] + rest;
    if cur.len() == 0 {
        assert(s.drop_first() =~= rest);
        assert(seq![Seq::<char>::empty()] + spec_split_char(rest, sep) =~~= seq![cur]
            + spec_split_char(rest, sep));
    } else {
        let t = s.drop_first();
        assert(t =~= cur.drop_first() + seq![sep] + rest);
        assert(forall|k: int| 0 <= k < cur.drop_first().len() ==> cur.drop_first()[k] == cur[k + 1]);
        lemma_split_with_sep(cur.drop_first(), rest, sep);
        lemma_split_len(rest, sep);
        let inner = seq![cur.drop_first()] + spec_split_char(rest, sep);
        assert(spec_split_char(t, sep) == inner);
        assert(s[0] == cur[0]);
        assert(s[0] != sep);
        assert(seq![s[0]] + inner[0] =~= cur);
        assert(seq![seq![s[0]] + inner[0]] + inner.drop_first() =~~= seq![cur] + spec_split_char(
            rest,
            sep,
        ));
    }
}

/// Splits `s` on `sep` into owned fields.
pub fn split_str(s: &str, sep: char) -> (r: Vec<String>)
    ensures
        r.deep_view() == spec_split_char(s@, sep),
{
    let len = s.unicode_len();
    let mut fields: Vec<String> = Vec::new();
    let mut start: usize = 0;
    let mut i: usize = 0;
    proof {
        assert(s@.subrange(0, len as int) =~= s@);
        assert(fields.deep_view() + spec_split_char(s@, sep) =~~= spec_split_char(s@, sep));
    }
    while i < len
        invariant
            len == s@.len(),
            start <= i <= len,
            forall|k: int| start <= k < i ==> s@[k] != sep,
            spec_split_char(s@, sep) == fields.deep_view() + spec_split_char(
                s@.subrange(start as int, len as int),
                sep,
            ),
        decreases len - i,
    {
        if s.get_char(i) == sep {
            let cur = s.substring_char(start, i);
            let ghost fs_old = fields.deep_view();
            fields.push(cur.to_owned());
            proof {
                assert(fields.deep_view() =~~= fs_old.push(cur@));
                assert(s@.subrange(start as int, len as int) =~= cur@ + seq![sep] + s@.subrange(
                    i + 1,
                    len as int,
                ));
                lemma_split_with_sep(cur@, s@.subrange(i + 1, len as int), sep);
                assert(fields.deep_view() + spec_split_char(s@.subrange(i + 1, len as int), sep)
                    =~~= fs_old + (seq![cur@] + spec_split_char(
                    s@.subrange(i + 1, len as int),
                    sep,
                )));
            }
            start = i + 1;
        }
        i += 1;
    }
    let cur = s.substring_char(start, len);
    let ghost fs_old = fields.deep_view();
    fields.push(cur.to_owned());
    proof {
        assert(fields.deep_view() =~~= fs_old.push(cur@));
        lemma_split_no_sep(cur@, sep);
        assert(fs_old + spec_split_char(cur@, sep) =~~= fs_old.push(cur@));
    }
    fields
}

/// Splits `s` on `sep` and trims each field.
pub open spec fn spec_split_trim(s: Seq<char>, sep: char) -> Seq<Seq<char>> {
    spec_split_char(s, sep).map_values(|f: Seq<char>| spec_trim(f))
}

/// Splits `s` on `sep` into owned fields, each trimmed of surrounding
/// whitespace.
pub fn split_trim_str(s: &str, sep: char) -> (r: Vec<String>)
    ensures
        r.deep_view() == spec_split_trim(s@, sep),
{
    let raw = split_str(s, sep);
    let mut fields: Vec<String> = Vec::new();
    let n = raw.len();
    let mut i: usize = 0;
    while i < n
        invariant
            n == raw@.len(),
            i <= n,
            raw.deep_view() == spec_split_char(s@, sep),
            fields.deep_view() =~~= raw.deep_view().subrange(0, i as int).map_values(
                |f: Seq<char>| spec_trim(f),
            ),
        decreases n - i,
    {
        let t = trim_str(raw[i].as_str());
        let ghost fs_old = fields.deep_view();
        fields.push(t.to_owned());
        proof {
            assert(raw.deep_view()[i as int] == raw@[i as int]@);
            assert(fields.deep_view() =~~= fs_old.push(spec_trim(raw.deep_view()[i as int])));
            assert(fields.deep_view() =~~= raw.deep_view().subrange(0, i + 1).map_values(
                |f: Seq<char>| spec_trim(f),
            ));
        }
        i += 1;
    }
    proof {
        assert(raw.deep_view().subrange(0, n as int) =~= raw.deep_view());
    }
    fields
}

} // verus!
