//! Character-sequence helpers shared by the parser: trimming blanks,
//! locating the first occurrence of a character, splitting a text into
//! lines, and the validity rule for alias names.

use vstd::prelude::*;

verus! {

/// Blank characters stripped from both ends of names and commands.
/// Only space and tab count: a carriage return left behind by a
/// `\r\n` line ending stays embedded in the value, a known limitation.
pub open spec fn is_blank(c: char) -> bool {
    c == ' ' || c == '\t'
}

/// `s` with its leading blanks removed.
pub open spec fn trim_front(s: Seq<char>) -> Seq<char>
    decreases s.len(),
{
    if s.len() > 0 && is_blank(s[0]) {
        trim_front(s.drop_first())
    } else {
        s
    }
}

/// `s` with its trailing blanks removed.
pub open spec fn trim_back(s: Seq<char>) -> Seq<char>
    decreases s.len(),
{
    if s.len() > 0 && is_blank(s.last()) {
        trim_back(s.drop_last())
    } else {
        s
    }
}

/// `s` stripped of surrounding blanks.
pub open spec fn spec_trim(s: Seq<char>) -> Seq<char> {
    trim_back(trim_front(s))
}

/// If everything before `i` is blank and `i` is the length of `s` or a
/// non-blank position, then trimming the front keeps exactly `s[i..]`.
pub proof fn lemma_trim_front_at(s: Seq<char>, i: int)
    requires
        0 <= i <= s.len(),
        forall|k: int| 0 <= k < i ==> is_blank(#[trigger] s[k]),
        i == s.len() || !is_blank(s[i]),
    ensures
        trim_front(s) == s.subrange(i, s.len() as int),
    decreases i,
{
    if i == 0 {
        assert(trim_front(s) =~= s.subrange(0, s.len() as int));
    } else {
        let t = s.drop_first();
        assert forall|k: int| 0 <= k < i - 1 implies is_blank(#[trigger] t[k]) by {
            assert(t[k] == s[k + 1]);
        }
        if i - 1 < t.len() {
            assert(t[i - 1] == s[i]);
        }
        lemma_trim_front_at(t, i - 1);
        assert(t.subrange(i - 1, t.len() as int) =~= s.subrange(i, s.len() as int));
    }
}

/// If everything from `j` on is blank and `j` is zero or follows a
/// non-blank position, then trimming the back keeps exactly `s[..j]`.
pub proof fn lemma_trim_back_at(s: Seq<char>, j: int)
    requires
        0 <= j <= s.len(),
        forall|k: int| j <= k < s.len() ==> is_blank(#[trigger] s[k]),
        j == 0 || !is_blank(s[j - 1]),
    ensures
        trim_back(s) == s.subrange(0, j),
    decreases s.len() - j,
{
    if j == s.len() {
        assert(trim_back(s) =~= s.subrange(0, j));
    } else {
        let t = s.drop_last();
        assert(is_blank(s.last()));
        assert forall|k: int| j <= k < t.len() implies is_blank(#[trigger] t[k]) by {
            assert(t[k] == s[k]);
        }
        lemma_trim_back_at(t, j);
        assert(t.subrange(0, j) =~= s.subrange(0, j));
    }
}

/// The index of the first occurrence of `c` in `s`, or `-1` when `s`
/// does not contain `c`.
pub open spec fn first_of(s: Seq<char>, c: char) -> int
    decreases s.len(),
{
    if s.len() == 0 {
        -1
    } else if s[0] == c {
        0
    } else if first_of(s.drop_first(), c) < 0 {
        -1
    } else {
        1 + first_of(s.drop_first(), c)
    }
}

/// `first_of` finds the first occurrence: a result of `-1` means no
/// occurrence at all, and any other result is the least index of one.
pub proof fn lemma_first_of(s: Seq<char>, c: char)
    ensures
        first_of(s, c) == -1 ==> forall|k: int| 0 <= k < s.len() ==> s[k] != c,
        first_of(s, c) != -1 ==> 0 <= first_of(s, c) < s.len() && s[first_of(s, c)] == c
            && forall|k: int| 0 <= k < first_of(s, c) ==> s[k] != c,
    decreases s.len(),
{
    if s.len() > 0 && s[0] != c {
        let t = s.drop_first();
        lemma_first_of(t, c);
        assert forall|k: int| 1 <= k < s.len() && first_of(t, c) == -1 implies s[k] != c by {
            assert(t[k - 1] == s[k]);
        }
        if first_of(t, c) >= 0 {
            assert(t[first_of(t, c)] == s[first_of(t, c) + 1]);
            assert forall|k: int| 1 <= k < first_of(s, c) implies s[k] != c by {
                assert(t[k - 1] == s[k]);
            }
        }
    }
}

/// `s` split into lines on `'\n'`. A text without a newline is a single
/// line; each newline ends a line, so a trailing newline yields a final
/// empty line.
pub open spec fn spec_lines(s: Seq<char>) -> Seq<Seq<char>>
    decreases s.len(),
{
    let p = first_of(s, '\n');
    if p < 0 || p >= s.len() {
        seq![s]
    } else {
        seq![s.subrange(0, p)] + spec_lines(s.subrange(p + 1, s.len() as int))
    }
}

/// A text without a newline forms exactly one line.
pub proof fn lemma_spec_lines_single(t: Seq<char>)
    requires
        forall|k: int| 0 <= k < t.len() ==> t[k] != '\n',
    ensures
        spec_lines(t) == seq![t],
{
    lemma_first_of(t, '\n');
}

/// If the first newline of `t` stands at `q`, the lines of `t` are
/// `t[..q]` followed by the lines of `t[q + 1..]`.
pub proof fn lemma_spec_lines_split(t: Seq<char>, q: int)
    requires
        0 <= q < t.len(),
        t[q] == '\n',
        forall|k: int| 0 <= k < q ==> t[k] != '\n',
    ensures
        spec_lines(t) == seq![t.subrange(0, q)] + spec_lines(
            t.subrange(q + 1, t.len() as int),
        ),
{
    lemma_first_of(t, '\n');
    assert(first_of(t, '\n') == q);
}

/// A usable alias name: non-empty, with no path separator and no null
/// character, so `<name>.fish` is a well-formed file name.
pub open spec fn valid_name(n: Seq<char>) -> bool {
    n.len() > 0 && forall|k: int| 0 <= k < n.len() ==> (#[trigger] n[k]) != '/' && n[k] != '\u{0}'
}

/// Finds the first occurrence of `target` in `s` at or after `from`.
pub fn find_char_from(s: &str, from: usize, target: char) -> (r: Option<usize>)
    requires
        from <= s@.len(),
    ensures
        match r {
            Some(p) => from <= p < s@.len() && s@[p as int] == target && forall|k: int|
                from <= k < p ==> s@[k] != target,
            None => forall|k: int| from <= k < s@.len() ==> s@[k] != target,
        },
{
    let n = s.unicode_len();
    let mut i: usize = from;
    loop
        invariant
            from <= i <= n,
            n == s@.len(),
            forall|k: int| from <= k < i ==> s@[k] != target,
        decreases n - i,
    {
        if i >= n {
            return None;
        }
        let c = s.get_char(i);
        if c == target {
            return Some(i);
        }
        i = i + 1;
    }
}

/// Strips surrounding blanks from `s`, as `spec_trim` describes.
pub fn trim_str(s: &str) -> (r: String)
    ensures
        r@ == spec_trim(s@),
{
    let n = s.unicode_len();
    let mut i: usize = 0;
    loop
        invariant
            i <= n,
            n == s@.len(),
            forall|k: int| 0 <= k < i ==> is_blank(#[trigger] s@[k]),
        ensures
            i <= n,
            n == s@.len(),
            forall|k: int| 0 <= k < i ==> is_blank(#[trigger] s@[k]),
            i == n || !is_blank(s@[i as int]),
        decreases n - i,
    {
        if i >= n {
            break;
        }
        let c = s.get_char(i);
        if !(c == ' ' || c == '\t') {
            break;
        }
        i = i + 1;
    }
    let mut j: usize = n;
    loop
        invariant
            i <= j <= n,
            n == s@.len(),
            forall|k: int| j <= k < n ==> is_blank(#[trigger] s@[k]),
        ensures
            i <= j <= n,
            forall|k: int| j <= k < n ==> is_blank(#[trigger] s@[k]),
            j == i || !is_blank(s@[j - 1]),
        decreases j,
    {
        if j <= i {
            break;
        }
        let c = s.get_char(j - 1);
        if !(c == ' ' || c == '\t') {
            break;
        }
        j = j - 1;
    }
    proof {
        lemma_trim_front_at(s@, i as int);
        let t = s@.subrange(i as int, n as int);
        assert forall|k: int| j - i <= k < t.len() implies is_blank(#[trigger] t[k]) by {
            assert(t[k] == s@[k + i]);
        }
        if j > i {
            assert(t[j - i - 1] == s@[j - 1]);
        }
        lemma_trim_back_at(t, j - i);
        assert(t.subrange(0, j - i) =~= s@.subrange(i as int, j as int));
    }
    String::from_str(s.substring_char(i, j))
}

/// Decides `valid_name` for a string's characters.
pub fn check_name(name: &str) -> (b: bool)
    ensures
        b == valid_name(name@),
{
    let n = name.unicode_len();
    if n == 0 {
        return false;
    }
    let mut i: usize = 0;
    loop
        invariant
            i <= n,
            n == name@.len(),
            n > 0,
            forall|k: int| 0 <= k < i ==> (#[trigger] name@[k]) != '/' && name@[k] != '\u{0}',
        ensures
            forall|k: int| 0 <= k < n ==> (#[trigger] name@[k]) != '/' && name@[k] != '\u{0}',
        decreases n - i,
    {
        if i >= n {
            break;
        }
        let c = name.get_char(i);
        if c == '/' || c == '\u{0}' {
            return false;
        }
        i = i + 1;
    }
    true
}

} // verus!
