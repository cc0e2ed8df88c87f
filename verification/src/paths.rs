//! Path handling for the receiver side: sub-path component normalization,
//! joining and splitting of slash-separated paths, and the sequence of
//! collision-avoiding candidate names `name`, `name(1)`, `name(2)`, ...
//!
//! Paths are plain strings with `/` as the separator; a sub-path is a
//! vector of components.

use vstd::prelude::*;

use crate::error::Error;

verus! {

/// Greatest number of codepoints a destination filename component may have.
pub const MAX_FILENAME_LENGTH: usize = 255;

/// Characters that are trimmed from both ends of a sub-path component.
pub open spec fn is_trim_char(c: char) -> bool {
    c == ' ' || c == '\t' || c == '\n' || c == '\r'
}

fn is_trim(c: char) -> (r: bool)
    ensures
        r == is_trim_char(c),
{
    c == ' ' || c == '\t' || c == '\n' || c == '\r'
}

/// Characters that may not appear inside a sub-path component.
pub open spec fn is_separator(c: char) -> bool {
    c == '/' || c == '\\'
}

fn is_sep(c: char) -> (r: bool)
    ensures
        r == is_separator(c),
{
    c == '/' || c == '\\'
}

/// The component with leading trim characters removed.
pub open spec fn trim_front(s: Seq<char>) -> Seq<char>
    decreases s.len(),
{
    if s.len() > 0 && is_trim_char(s[0]) {
        trim_front(s.drop_first())
    } else {
        s
    }
}

/// The component with trailing trim characters removed.
pub open spec fn trim_back(s: Seq<char>) -> Seq<char>
    decreases s.len(),
{
    if s.len() > 0 && is_trim_char(s.last()) {
        trim_back(s.drop_last())
    } else {
        s
    }
}

/// What component normalization returns: the component trimmed at both
/// ends and capped at `MAX_FILENAME_LENGTH` codepoints.
pub open spec fn normalize_spec(s: Seq<char>) -> Seq<char> {
    let t = trim_back(trim_front(s));
    if t.len() <= MAX_FILENAME_LENGTH {
        t
    } else {
        t.take(MAX_FILENAME_LENGTH as int)
    }
}

/// Whether a component is acceptable once normalized: non-empty, not a
/// dot or dot-dot entry, and free of path separators.
pub open spec fn component_ok(s: Seq<char>) -> bool {
    let t = normalize_spec(s);
    &&& t.len() > 0
    &&& t != seq!['.']
    &&& t != seq!['.', '.']
    &&& forall|i: int| 0 <= i < t.len() ==> !is_separator(#[trigger] t[i])
}

proof fn lemma_trim_front_subrange(s: Seq<char>, k: int)
    requires
        0 <= k <= s.len(),
        forall|j: int| 0 <= j < k ==> is_trim_char(#[trigger] s[j]),
        k < s.len() ==> !is_trim_char(s[k]),
    ensures
        trim_front(s) == s.subrange(k, s.len() as int),
    decreases k,
{
    if k == 0 {
        assert(s.subrange(0, s.len() as int) =~= s);
    } else {
        lemma_trim_front_subrange(s.drop_first(), k - 1);
        assert(s.drop_first().subrange(k - 1, s.drop_first().len() as int) =~= s.subrange(
            k,
            s.len() as int,
        ));
    }
}

proof fn lemma_trim_back_subrange(s: Seq<char>, k: int)
    requires
        0 <= k <= s.len(),
        forall|j: int| k <= j < s.len() ==> is_trim_char(#[trigger] s[j]),
        k > 0 ==> !is_trim_char(s[k - 1]),
    ensures
        trim_back(s) == s.subrange(0, k),
    decreases s.len() - k,
{
    if k == s.len() {
        assert(s.subrange(0, k) =~= s);
    } else {
        lemma_trim_back_subrange(s.drop_last(), k);
        assert(s.drop_last().subrange(0, k) =~= s.subrange(0, k));
    }
}

/// Normalizes one sub-path component: trims whitespace at both ends, caps
/// the length at `MAX_FILENAME_LENGTH` codepoints, and rejects the result
/// if it is empty, `.`, `..`, or still holds a path separator.
pub fn normalize_component(s: &str) -> (r: Result<String, Error>)
    ensures
        r matches Ok(t) ==> component_ok(s@) && t@ == normalize_spec(s@),
        r is Err ==> !component_ok(s@),
        r matches Err(e) ==> e matches Error::BadPath(_),
{
    let n = s.unicode_len();
    let mut lo: usize = 0;
    while lo < n && is_trim(s.get_char(lo))
        invariant
            n == s@.len(),
            0 <= lo <= n,
            forall|j: int| 0 <= j < lo ==> is_trim_char(#[trigger] s@[j]),
        decreases n - lo,
    {
        lo += 1;
    }
    let mut hi: usize = n;
    while hi > lo && is_trim(s.get_char(hi - 1))
        invariant
            n == s@.len(),
            0 <= lo <= hi <= n,
            forall|j: int| hi <= j < n ==> is_trim_char(#[trigger] s@[j]),
        decreases hi,
    {
        hi -= 1;
    }
    proof {
        lemma_trim_front_subrange(s@, lo as int);
        let sub = s@.subrange(lo as int, n as int);
        lemma_trim_back_subrange(sub, hi - lo);
        assert(sub.subrange(0, hi - lo) =~= s@.subrange(lo as int, hi as int));
    }
    let end: usize = if hi - lo > MAX_FILENAME_LENGTH {
        lo + MAX_FILENAME_LENGTH
    } else {
        hi
    };
    proof {
        if hi - lo > MAX_FILENAME_LENGTH {
            assert(s@.subrange(lo as int, hi as int).take(MAX_FILENAME_LENGTH as int)
                =~= s@.subrange(lo as int, end as int));
        }
        assert(normalize_spec(s@) == s@.subrange(lo as int, end as int));
    }
    let t = s.substring_char(lo, end).to_owned();
    let tlen: usize = end - lo;
    assert(t@.len() == tlen);
    if tlen == 0 {
        return Err(Error::BadPath("empty path component".to_owned()));
    }
    if tlen == 1 && t.as_str().get_char(0) == '.' {
        proof {
            assert(t@ =~= seq!['.']);
        }
        return Err(Error::BadPath("dot path component".to_owned()));
    }
    if tlen == 2 && t.as_str().get_char(0) == '.' && t.as_str().get_char(1) == '.' {
        proof {
            assert(t@ =~= seq!['.', '.']);
        }
        return Err(Error::BadPath("dot-dot path component".to_owned()));
    }
    let mut i: usize = 0;
    while i < tlen
        invariant
            tlen == t@.len(),
            t@ == normalize_spec(s@),
            0 <= i <= tlen,
            forall|j: int| 0 <= j < i ==> !is_separator(#[trigger] t@[j]),
        decreases tlen - i,
    {
        if is_sep(t.as_str().get_char(i)) {
            proof {
                assert(is_separator(normalize_spec(s@)[i as int]));
            }
            return Err(Error::BadPath("separator inside path component".to_owned()));
        }
        i += 1;
    }
    proof {
        if t@ == seq!['.'] {
            assert(t@[0] == '.');
        }
        if t@ == seq!['.', '.'] {
            assert(t@[0] == '.' && t@[1] == '.');
        }
    }
    Ok(t)
}

/// Whether a whole sub-path is acceptable: at least one component, each
/// of them acceptable.
pub open spec fn subpath_ok(ss: Seq<Seq<char>>) -> bool {
    &&& ss.len() > 0
    &&& forall|i: int| 0 <= i < ss.len() ==> component_ok(#[trigger] ss[i])
}

/// The normalization of every component of a sub-path.
pub open spec fn normalize_all(ss: Seq<Seq<char>>) -> Seq<Seq<char>> {
    ss.map_values(|c: Seq<char>| normalize_spec(c))
}

/// Normalizes every component of a sub-path, rejecting empty sub-paths
/// and unacceptable components.
pub fn normalize_subpath(sub: &Vec<String>) -> (r: Result<Vec<String>, Error>)
    ensures
        r matches Ok(v) ==> subpath_ok(sub.deep_view()) && v.deep_view() == normalize_all(
            sub.deep_view(),
        ),
        r is Err ==> !subpath_ok(sub.deep_view()),
        r matches Err(e) ==> e matches Error::BadPath(_),
{
    if sub.len() == 0 {
        return Err(Error::BadPath("path should contain at least one component".to_owned()));
    }
    let mut out: Vec<String> = Vec::new();
    let mut i: usize = 0;
    while i < sub.len()
        invariant
            0 <= i <= sub.len(),
            out.len() == i,
            out.deep_view() == normalize_all(sub.deep_view().take(i as int)),
            forall|j: int| 0 <= j < i ==> component_ok(#[trigger] sub.deep_view()[j]),
        decreases sub.len() - i,
    {
        proof {
            assert(sub.deep_view()[i as int] == sub@[i as int]@);
        }
        match normalize_component(sub[i].as_str()) {
            Ok(t) => {
                out.push(t);
                proof {
                    let dv = sub.deep_view();
                    assert forall|j: int| 0 <= j < i + 1 implies out.deep_view()[j]
                        == normalize_all(dv.take(i + 1))[j] by {
                        assert(out.deep_view()[j] == out@[j]@);
                        if j < i {
                            assert(normalize_all(dv.take(i as int))[j] == normalize_spec(dv[j]));
                        }
                    }
                    assert(out.deep_view() =~~= normalize_all(dv.take(i + 1)));
                }
            },
            Err(e) => {
                proof {
                    assert(!component_ok(sub.deep_view()[i as int]));
                }
                return Err(e);
            },
        }
        i += 1;
    }
    proof {
        assert(sub.deep_view().take(sub.len() as int) =~= sub.deep_view());
    }
    Ok(out)
}

/// Compares two string slices by content.
pub fn str_eq(a: &str, b: &str) -> (r: bool)
    ensures
        r == (a@ == b@),
{
    let n = a.unicode_len();
    if n != b.unicode_len() {
        return false;
    }
    let mut i: usize = 0;
    while i < n
        invariant
            n == a@.len(),
            n == b@.len(),
            0 <= i <= n,
            forall|j: int| 0 <= j < i ==> a@[j] == b@[j],
        decreases n - i,
    {
        if a.get_char(i) != b.get_char(i) {
            return false;
        }
        i += 1;
    }
    proof {
        assert(a@ =~= b@);
    }
    true
}

/// The components joined with `/` in between; no separator is added for a
/// single component, and the empty sequence of components joins to the
/// empty path.
pub open spec fn join_spec(parts: Seq<Seq<char>>) -> Seq<char>
    decreases parts.len(),
{
    if parts.len() == 0 {
        Seq::empty()
    } else if parts.len() == 1 {
        parts[0]
    } else {
        join_spec(parts.drop_last()) + seq!['/'] + parts.last()
    }
}

/// Joins path components with `/`.
pub fn join_components(parts: &Vec<String>) -> (r: String)
    ensures
        r@ == join_spec(parts.deep_view()),
{
    let mut out = String::new();
    let mut i: usize = 0;
    while i < parts.len()
        invariant
            0 <= i <= parts.len(),
            out@ == join_spec(parts.deep_view().take(i as int)),
        decreases parts.len() - i,
    {
        if i > 0 {
            proof {
                reveal_strlit("/");
            }
            out.append("/");
        }
        out.append(parts[i].as_str());
        proof {
            let dv = parts.deep_view();
            assert(dv[i as int] == parts@[i as int]@);
            assert(dv.take(i + 1).drop_last() =~= dv.take(i as int));
            assert(dv.take(i + 1).last() == dv[i as int]);
            if i == 0 {
                assert(out@ =~= join_spec(dv.take(1)));
            } else {
                assert("/"@ =~= seq!['/']);
                assert(out@ =~= join_spec(dv.take(i + 1)));
            }
        }
        i += 1;
    }
    proof {
        assert(parts.deep_view().take(parts.len() as int) =~= parts.deep_view());
    }
    out
}

/// Joins a directory path and one further component with `/`.
pub fn join_two(dir: &str, name: &str) -> (r: String)
    ensures
        r@ == dir@ + seq!['/'] + name@,
{
    let mut out = dir.to_owned();
    proof {
        reveal_strlit("/");
        assert("/"@ =~= seq!['/']);
    }
    out.append("/");
    out.append(name);
    out
}

/// The decimal digit character for a value below ten.
pub open spec fn dec_digit(d: int) -> char {
    if d == 0 {
        '0'
    } else if d == 1 {
        '1'
    } else if d == 2 {
        '2'
    } else if d == 3 {
        '3'
    } else if d == 4 {
        '4'
    } else if d == 5 {
        '5'
    } else if d == 6 {
        '6'
    } else if d == 7 {
        '7'
    } else if d == 8 {
        '8'
    } else {
        '9'
    }
}

/// The decimal rendering of a number, most significant digit first.
pub open spec fn dec_str(n: nat) -> Seq<char>
    decreases n,
{
    if n < 10 {
        seq![dec_digit(n as int)]
    } else {
        dec_str(n / 10) + seq![dec_digit((n % 10) as int)]
    }
}

fn digit_str(d: u64) -> (r: &'static str)
    requires
        d < 10,
    ensures
        r@ == seq![dec_digit(d as int)],
{
    let s: &'static str = if d == 0 {
        "0"
    } else if d == 1 {
        "1"
    } else if d == 2 {
        "2"
    } else if d == 3 {
        "3"
    } else if d == 4 {
        "4"
    } else if d == 5 {
        "5"
    } else if d == 6 {
        "6"
    } else if d == 7 {
        "7"
    } else if d == 8 {
        "8"
    } else {
        "9"
    };
    proof {
        reveal_strlit("0");
        reveal_strlit("1");
        reveal_strlit("2");
        reveal_strlit("3");
        reveal_strlit("4");
        reveal_strlit("5");
        reveal_strlit("6");
        reveal_strlit("7");
        reveal_strlit("8");
        reveal_strlit("9");
        assert(s@ =~= seq![dec_digit(d as int)]);
    }
    s
}

/// Renders a number in decimal.
pub fn u64_to_dec(n: u64) -> (r: String)
    ensures
        r@ == dec_str(n as nat),
    decreases n,
{
    if n < 10 {
        digit_str(n).to_owned()
    } else {
        let mut out = u64_to_dec(n / 10);
        out.append(digit_str(n % 10));
        out
    }
}

/// The index of the last `.` of a name, counting only indices above zero
/// (a leading dot marks a hidden file, not an extension); `-1` when the
/// name has no such dot.
pub open spec fn last_dot(s: Seq<char>) -> int
    decreases s.len(),
{
    if s.len() <= 1 {
        -1
    } else if s.last() == '.' {
        s.len() - 1
    } else {
        last_dot(s.drop_last())
    }
}

proof fn lemma_last_dot_found(s: Seq<char>, d: int)
    requires
        1 <= d < s.len(),
        s[d] == '.',
        forall|m: int| d < m < s.len() ==> s[m] != '.',
    ensures
        last_dot(s) == d,
    decreases s.len(),
{
    if d < s.len() - 1 {
        lemma_last_dot_found(s.drop_last(), d);
    }
}

proof fn lemma_last_dot_none(s: Seq<char>)
    requires
        forall|m: int| 1 <= m < s.len() ==> s[m] != '.',
    ensures
        last_dot(s) == -1,
    decreases s.len(),
{
    if s.len() > 1 {
        lemma_last_dot_none(s.drop_last());
    }
}

/// The `i`-th candidate in the collision-avoiding sequence for a name:
/// the name itself for `i == 0`, then the name with `(i)` inserted before
/// its extension.
pub open spec fn candidate_spec(name: Seq<char>, i: nat) -> Seq<char> {
    if i == 0 {
        name
    } else {
        let d = last_dot(name);
        if d < 0 {
            name + seq!['('] + dec_str(i) + seq![')']
        } else {
            name.take(d) + seq!['('] + dec_str(i) + seq![')'] + name.skip(d)
        }
    }
}

/// Produces the `i`-th candidate name in the collision-avoiding sequence
/// `name`, `name(1)`, `name(2)`, ...
pub fn candidate_name(name: &str, i: u64) -> (r: String)
    ensures
        r@ == candidate_spec(name@, i as nat),
{
    if i == 0 {
        return name.to_owned();
    }
    let n = name.unicode_len();
    let mut j: usize = n;
    let mut dot: usize = 0;
    let mut found = false;
    while j > 1 && !found
        invariant
            n == name@.len(),
            0 <= j <= n,
            !found ==> forall|m: int| j <= m < n ==> name@[m] != '.',
            found ==> 1 <= dot < n && name@[dot as int] == '.' && forall|m: int|
                dot < m < n ==> name@[m] != '.',
        decreases j, (if found { 0int } else { 1int }),
    {
        if name.get_char(j - 1) == '.' {
            dot = j - 1;
            found = true;
        } else {
            j -= 1;
        }
    }
    proof {
        if found {
            lemma_last_dot_found(name@, dot as int);
        } else {
            lemma_last_dot_none(name@);
        }
    }
    let stem_end: usize = if found {
        dot
    } else {
        n
    };
    let mut out = name.substring_char(0, stem_end).to_owned();
    proof {
        reveal_strlit("(");
        reveal_strlit(")");
        assert("("@ =~= seq!['(']);
        assert(")"@ =~= seq![')']);
    }
    out.append("(");
    let num = u64_to_dec(i);
    out.append(num.as_str());
    out.append(")");
    let ext = name.substring_char(stem_end, n);
    out.append(ext);
    proof {
        if found {
            assert(name@.take(dot as int) == name@.subrange(0, dot as int));
            assert(name@.skip(dot as int) == name@.subrange(dot as int, n as int));
            assert(out@ =~= candidate_spec(name@, i as nat));
        } else {
            assert(name@.subrange(0, n as int) =~= name@);
            assert(name@.subrange(n as int, n as int) =~= Seq::<char>::empty());
            assert(out@ =~= candidate_spec(name@, i as nat));
        }
    }
    out
}

/// The index of the last `/` of a path, or `-1` when it has none.
pub open spec fn last_sep(s: Seq<char>) -> int
    decreases s.len(),
{
    if s.len() == 0 {
        -1
    } else if s.last() == '/' {
        s.len() - 1
    } else {
        last_sep(s.drop_last())
    }
}

pub proof fn lemma_last_sep_found(s: Seq<char>, d: int)
    requires
        0 <= d < s.len(),
        s[d] == '/',
        forall|m: int| d < m < s.len() ==> s[m] != '/',
    ensures
        last_sep(s) == d,
    decreases s.len(),
{
    if d < s.len() - 1 {
        lemma_last_sep_found(s.drop_last(), d);
    }
}

pub proof fn lemma_last_sep_none(s: Seq<char>)
    requires
        forall|m: int| 0 <= m < s.len() ==> s[m] != '/',
    ensures
        last_sep(s) == -1,
    decreases s.len(),
{
    if s.len() > 0 {
        lemma_last_sep_none(s.drop_last());
    }
}

/// The `i`-th candidate for a whole path: the candidate sequence applied
/// to the part after the last `/`, with everything up to and including
/// that `/` kept.
pub open spec fn path_variant_spec(path: Seq<char>, i: nat) -> Seq<char> {
    if i == 0 {
        path
    } else {
        let p = last_sep(path);
        path.take(p + 1) + candidate_spec(path.skip(p + 1), i)
    }
}

/// Produces the `i`-th candidate for a whole path, leaving the directory
/// part untouched.
pub fn path_variant(path: &str, i: u64) -> (r: String)
    ensures
        r@ == path_variant_spec(path@, i as nat),
{
    if i == 0 {
        return path.to_owned();
    }
    let n = path.unicode_len();
    let mut j: usize = n;
    let mut sep: usize = 0;
    let mut found = false;
    while j > 0 && !found
        invariant
            n == path@.len(),
            0 <= j <= n,
            !found ==> forall|m: int| j <= m < n ==> path@[m] != '/',
            found ==> 0 <= sep < n && path@[sep as int] == '/' && forall|m: int|
                sep < m < n ==> path@[m] != '/',
        decreases j, (if found { 0int } else { 1int }),
    {
        if path.get_char(j - 1) == '/' {
            sep = j - 1;
            found = true;
        } else {
            j -= 1;
        }
    }
    proof {
        if found {
            lemma_last_sep_found(path@, sep as int);
        } else {
            lemma_last_sep_none(path@);
        }
    }
    let name_start: usize = if found {
        sep + 1
    } else {
        0
    };
    let mut out = path.substring_char(0, name_start).to_owned();
    let name = path.substring_char(name_start, n);
    let cand = candidate_name(name, i);
    out.append(cand.as_str());
    proof {
        assert(path@.subrange(0, name_start as int) == path@.take(name_start as int));
        assert(path@.subrange(name_start as int, n as int) =~= path@.skip(name_start as int));
        assert(out@ =~= path_variant_spec(path@, i as nat));
    }
    out
}

/// A path cut at every `/`: the resulting components, in order. A
/// leading `/` yields an empty first component, a trailing one an empty
/// last component.
pub open spec fn split_spec(s: Seq<char>) -> Seq<Seq<char>>
    decreases s.len(),
{
    if s.len() == 0 {
        seq![Seq::<char>::empty()]
    } else if s.last() == '/' {
        split_spec(s.drop_last()).push(Seq::empty())
    } else {
        let r = split_spec(s.drop_last());
        r.update(r.len() - 1, r.last().push(s.last()))
    }
}

proof fn lemma_split_len(s: Seq<char>)
    ensures
        split_spec(s).len() >= 1,
    decreases s.len(),
{
    if s.len() > 0 {
        lemma_split_len(s.drop_last());
    }
}

/// Splits a path at every `/`.
pub fn split_path(s: &str) -> (r: Vec<String>)
    ensures
        r.deep_view() == split_spec(s@),
        r.len() >= 1,
{
    let n = s.unicode_len();
    let mut parts: Vec<String> = Vec::new();
    let mut start: usize = 0;
    let mut i: usize = 0;
    proof {
        assert(s@.take(0) =~= Seq::<char>::empty());
        assert(s@.subrange(0, 0) =~= Seq::<char>::empty());
        assert(parts.deep_view() =~~= Seq::<Seq<char>>::empty());
        assert(parts.deep_view().push(s@.subrange(0, 0)) =~~= split_spec(s@.take(0)));
    }
    while i < n
        invariant
            n == s@.len(),
            0 <= start <= i <= n,
            parts.deep_view().push(s@.subrange(start as int, i as int)) == split_spec(
                s@.take(i as int),
            ),
        decreases n - i,
    {
        let c = s.get_char(i);
        proof {
            assert(s@.take(i + 1).drop_last() =~= s@.take(i as int));
            assert(s@.take(i + 1).last() == s@[i as int]);
        }
        if c == '/' {
            let piece = s.substring_char(start, i).to_owned();
            parts.push(piece);
            start = i + 1;
            proof {
                let prev = split_spec(s@.take(i as int));
                assert(parts.deep_view() =~~= prev);
                assert(parts.deep_view().push(s@.subrange(start as int, i + 1)) =~~= split_spec(
                    s@.take(i + 1),
                ));
            }
        } else {
            proof {
                let prev = split_spec(s@.take(i as int));
                lemma_split_len(s@.take(i as int));
                assert(prev.last() == s@.subrange(start as int, i as int));
                assert(s@.subrange(start as int, i as int).push(s@[i as int]) =~= s@.subrange(
                    start as int,
                    i + 1,
                ));
                assert(parts.deep_view().push(s@.subrange(start as int, i + 1)) =~~= split_spec(
                    s@.take(i + 1),
                ));
            }
        }
        i += 1;
    }
    let piece = s.substring_char(start, n).to_owned();
    parts.push(piece);
    proof {
        assert(s@.take(n as int) =~= s@);
        assert(parts.deep_view() =~~= split_spec(s@));
    }
    parts
}

} // verus!

