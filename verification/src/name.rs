//! Name Extractor: derives a component name from a file path.
//!
//! A path names a label file when its filename ends in the two-part suffix
//! `.labels.json` and a non-empty run of plain characters (no `.`, no `/`)
//! stands right before that suffix; that run is the component name.

use vstd::prelude::*;

verus! {

/// The required filename suffix, `.labels.json`.
pub open spec fn label_suffix() -> Seq<char> {
    seq!['.', 'l', 'a', 'b', 'e', 'l', 's', '.', 'j', 's', 'o', 'n']
}

/// Characters a component name may hold: anything but the pattern
/// delimiter `.` and the path separator `/`.
pub open spec fn is_name_char(c: char) -> bool {
    c != '.' && c != '/'
}

/// Start of the maximal run of name characters ending just before `i`.
pub open spec fn run_start(p: Seq<char>, i: int) -> int
    decreases i,
{
    if i <= 0 {
        0
    } else if is_name_char(p[i - 1]) {
        run_start(p, i - 1)
    } else {
        i
    }
}

/// Whether `p` is the path of a label file: it ends with `.labels.json`,
/// and a non-empty run of name characters stands right before the suffix.
pub open spec fn is_label_path(p: Seq<char>) -> bool {
    &&& p.len() >= 12
    &&& p.subrange(p.len() - 12, p.len() as int) == label_suffix()
    &&& run_start(p, p.len() - 12) < p.len() - 12
}

/// The component name carried by path `p`, if any.
pub open spec fn name_of(p: Seq<char>) -> Option<Seq<char>> {
    if is_label_path(p) {
        Some(p.subrange(run_start(p, p.len() - 12), p.len() - 12))
    } else {
        None
    }
}

proof fn lemma_run_start(p: Seq<char>, i: int)
    requires
        0 <= i <= p.len(),
    ensures
        0 <= run_start(p, i) <= i,
        forall|k: int| run_start(p, i) <= k < i ==> is_name_char(p[k]),
        run_start(p, i) > 0 ==> !is_name_char(p[run_start(p, i) - 1]),
    decreases i,
{
    if i > 0 && is_name_char(p[i - 1]) {
        lemma_run_start(p, i - 1);
    }
}

/// An extracted component name is non-empty and holds only name characters.
pub proof fn lemma_name_of_props(p: Seq<char>)
    requires
        name_of(p) is Some,
    ensures
        name_of(p)->Some_0.len() > 0,
        forall|k: int|
            0 <= k < name_of(p)->Some_0.len() ==> is_name_char(name_of(p)->Some_0[k]),
{
    lemma_run_start(p, p.len() - 12);
}

/// The `j`-th character of the `.labels.json` suffix.
fn suffix_char(j: usize) -> (c: char)
    requires
        j < 12,
    ensures
        c == label_suffix()[j as int],
{
    match j {
        0 => '.',
        1 => 'l',
        2 => 'a',
        3 => 'b',
        4 => 'e',
        5 => 'l',
        6 => 's',
        7 => '.',
        8 => 'j',
        9 => 's',
        10 => 'o',
        _ => 'n',
    }
}

/// Derives the component name from a file path: the maximal run of
/// characters other than `.` and `/` standing right before the
/// `.labels.json` suffix. Returns `None` when the path has no such suffix
/// or the run is empty.
pub fn extract_name(path: &str) -> (r: Option<String>)
    ensures
        r matches Some(n) ==> name_of(path@) == Some(n@),
        r is None ==> name_of(path@) is None,
{
    let n = path.unicode_len();
    if n < 12 {
        return None;
    }
    let mut j: usize = 0;
    while j < 12
        invariant
            n == path@.len(),
            12 <= n,
            j <= 12,
            forall|jj: int| 0 <= jj < j ==> path@[n - 12 + jj] == label_suffix()[jj],
        decreases 12 - j,
    {
        if path.get_char(n - 12 + j) != suffix_char(j) {
            proof {
                assert(path@.subrange(n - 12, n as int)[j as int] != label_suffix()[j as int]);
            }
            return None;
        }
        j += 1;
    }
    proof {
        assert(path@.subrange(n - 12, n as int) =~= label_suffix());
    }
    let mut k: usize = n - 12;
    loop
        invariant
            n == path@.len(),
            12 <= n,
            k <= n - 12,
            run_start(path@, n - 12) == run_start(path@, k as int),
        ensures
            k <= n - 12,
            run_start(path@, n - 12) == k as int,
        decreases k,
    {
        if k == 0 {
            break;
        }
        let c = path.get_char(k - 1);
        if c == '.' || c == '/' {
            break;
        }
        k -= 1;
    }
    if k == n - 12 {
        return None;
    }
    let name = path.substring_char(k, n - 12);
    Some(name.to_owned())
}

} // verus!
