//! Names and paths of experiment outputs.
//!
//! A run directory holds `schedules/` (one schedule JSON per cell),
//! `experiment.json` and `state.jsonl`. Paths use `/` as separator.
use vstd::prelude::*;
use vstd::string::*;

use crate::text::{
    ascii_alnum, chars_of, dec, is_ascii_alnum, owned, push_decimal, push_str, string_of,
    string_of_range,
};

verus! {

/// Subdirectory for schedule JSON files.
pub const SCHEDULES_DIR: &'static str = "schedules";

/// Append-only checkpoint stream file name.
pub const STATE_FILE: &'static str = "state.jsonl";

/// Manifest file name.
pub const EXPERIMENT_FILE: &'static str = "experiment.json";

/// Characters kept as they are in an experiment slug.
pub open spec fn slug_keeps(c: char) -> bool {
    is_ascii_alnum(c) || c == '_'
}

/// The slug of the first `n` characters before trimming, and whether it
/// ends with a dash written for a run of other characters.
pub open spec fn slug_scan(s: Seq<char>, n: nat) -> (Seq<char>, bool)
    decreases n,
{
    if n == 0 {
        (Seq::empty(), false)
    } else {
        let prev = slug_scan(s, (n - 1) as nat);
        let c = s[n - 1];
        if slug_keeps(c) {
            (prev.0.push(c), false)
        } else if !prev.1 {
            (prev.0.push('-'), true)
        } else {
            prev
        }
    }
}

pub open spec fn lead_dashes(s: Seq<char>) -> nat
    decreases s.len(),
{
    if s.len() > 0 && s[0] == '-' {
        1 + lead_dashes(s.drop_first())
    } else {
        0
    }
}

pub open spec fn trail_dashes(s: Seq<char>) -> nat
    decreases s.len(),
{
    if s.len() > 0 && s.last() == '-' {
        1 + trail_dashes(s.drop_last())
    } else {
        0
    }
}

/// `str::trim_matches('-')`.
pub open spec fn trim_dashes(s: Seq<char>) -> Seq<char> {
    let rest = s.skip(lead_dashes(s) as int);
    rest.take(rest.len() - trail_dashes(rest))
}

/// Every run of characters other than ASCII letters, digits and `_`
/// becomes one `-`; leading and trailing dashes are dropped; an empty
/// result becomes `experiment`.
pub open spec fn spec_experiment_slug(name: Seq<char>) -> Seq<char> {
    let t = trim_dashes(slug_scan(name, name.len()).0);
    if t.len() == 0 {
        "experiment"@
    } else {
        t
    }
}

fn trim_dashes_exec(v: &Vec<char>) -> (s: String)
    ensures
        s@ == trim_dashes(v@),
{
    let mut i: usize = 0;
    assert(v@.subrange(0, v@.len() as int) =~= v@);
    while i < v.len() && v[i] == '-'
        invariant
            i <= v.len(),
            lead_dashes(v@) == i + lead_dashes(v@.subrange(i as int, v@.len() as int)),
        decreases v.len() - i,
    {
        assert(v@.subrange(i as int, v@.len() as int)[0] == v@[i as int]);
        assert(v@.subrange(i as int, v@.len() as int).drop_first() =~= v@.subrange(
            i + 1,
            v@.len() as int,
        ));
        i = i + 1;
    }
    proof {
        if i < v.len() {
            assert(v@.subrange(i as int, v@.len() as int)[0] == v@[i as int]);
        }
        assert(v@.skip(i as int) =~= v@.subrange(i as int, v@.len() as int));
    }
    let ghost rest = v@.skip(i as int);
    let mut j = v.len();
    assert(rest.take(rest.len() as int) =~= rest);
    while j > i && v[j - 1] == '-'
        invariant
            i <= j <= v.len(),
            rest == v@.skip(i as int),
            trail_dashes(rest) == (v.len() - j) + trail_dashes(v@.subrange(i as int, j as int)),
        decreases j - i,
    {
        assert(v@.subrange(i as int, j as int).last() == v@[j - 1]);
        assert(v@.subrange(i as int, j as int).drop_last() =~= v@.subrange(i as int, j - 1));
        j = j - 1;
    }
    proof {
        if j > i {
            assert(v@.subrange(i as int, j as int).last() == v@[j - 1]);
        }
        assert(rest.take(rest.len() - (v.len() - j)) =~= v@.subrange(i as int, j as int));
    }
    string_of_range(v, i, j)
}

/// A filesystem-safe directory name for an experiment name.
pub fn experiment_slug(name: &str) -> (s: String)
    ensures
        s@ == spec_experiment_slug(name@),
{
    let v = chars_of(name);
    let mut out: Vec<char> = Vec::new();
    let mut prev_dash = false;
    let mut i: usize = 0;
    while i < v.len()
        invariant
            i <= v.len(),
            v@ == name@,
            slug_scan(name@, i as nat) == (out@, prev_dash),
        decreases v.len() - i,
    {
        let c = v[i];
        if ascii_alnum(c) || c == '_' {
            out.push(c);
            prev_dash = false;
        } else if !prev_dash {
            out.push('-');
            prev_dash = true;
        }
        i = i + 1;
    }
    let t = trim_dashes_exec(&out);
    if t.as_str().unicode_len() == 0 {
        owned("experiment")
    } else {
        t
    }
}

/// A valid experiment slug: non-empty, made of ASCII letters, digits, `_`
/// and `-`, without a leading or trailing dash and without two dashes in a
/// row.
pub open spec fn valid_slug(r: Seq<char>) -> bool {
    &&& r.len() > 0
    &&& forall|i: int| 0 <= i < r.len() ==> slug_keeps(#[trigger] r[i]) || r[i] == '-'
    &&& r[0] != '-'
    &&& r.last() != '-'
    &&& forall|i: int, j: int|
        0 <= i && j == i + 1 && j < r.len() ==> !(#[trigger] r[i] == '-' && #[trigger] r[j] == '-')
}

/// What the scan builds: letters, digits, `_` and single dashes, the flag
/// telling whether it ends with a dash.
proof fn lemma_scan_shape(s: Seq<char>, n: nat)
    requires
        n <= s.len(),
    ensures
        ({
            let r = slug_scan(s, n).0;
            &&& forall|i: int| 0 <= i < r.len() ==> slug_keeps(#[trigger] r[i]) || r[i] == '-'
            &&& forall|i: int, j: int|
                0 <= i && j == i + 1 && j < r.len() ==> !(#[trigger] r[i] == '-' && #[trigger] r[j]
                    == '-')
            &&& slug_scan(s, n).1 == (r.len() > 0 && r.last() == '-')
            &&& (forall|k: int| 0 <= k < n ==> !slug_keeps(#[trigger] s[k])) ==> forall|i: int|
                0 <= i < r.len() ==> #[trigger] r[i] == '-'
        }),
    decreases n,
{
    if n > 0 {
        lemma_scan_shape(s, (n - 1) as nat);
        let prev = slug_scan(s, (n - 1) as nat);
        let r = slug_scan(s, n).0;
        assert forall|i: int, j: int|
            0 <= i && j == i + 1 && j < r.len() implies !(#[trigger] r[i] == '-' && #[trigger] r[j]
                == '-') by {
            if j < prev.0.len() {
                assert(r[i] == prev.0[i] && r[j] == prev.0[j]);
            }
        }
        if forall|k: int| 0 <= k < n ==> !slug_keeps(#[trigger] s[k]) {
            assert(!slug_keeps(s[n - 1]));
            assert(forall|k: int| 0 <= k < n - 1 ==> !slug_keeps(#[trigger] s[k]));
        }
    }
}

proof fn lemma_lead_dashes(s: Seq<char>)
    ensures
        lead_dashes(s) <= s.len(),
        forall|i: int| 0 <= i < lead_dashes(s) ==> #[trigger] s[i] == '-',
        lead_dashes(s) < s.len() ==> s[lead_dashes(s) as int] != '-',
    decreases s.len(),
{
    if s.len() > 0 && s[0] == '-' {
        lemma_lead_dashes(s.drop_first());
        assert forall|i: int| 0 <= i < lead_dashes(s) implies #[trigger] s[i] == '-' by {
            if i > 0 {
                assert(s[i] == s.drop_first()[i - 1]);
            }
        }
    }
}

proof fn lemma_trail_dashes(s: Seq<char>)
    ensures
        trail_dashes(s) <= s.len(),
        trail_dashes(s) < s.len() ==> s[s.len() - 1 - trail_dashes(s)] != '-',
    decreases s.len(),
{
    if s.len() > 0 && s.last() == '-' {
        lemma_trail_dashes(s.drop_last());
    }
}

/// Trimming keeps a middle part whose ends are not dashes.
proof fn lemma_trim_dashes(s: Seq<char>)
    ensures
        ({
            let a = lead_dashes(s) as int;
            let t = trim_dashes(s);
            &&& t.len() + a <= s.len()
            &&& forall|i: int| 0 <= i < t.len() ==> #[trigger] t[i] == s[a + i]
            &&& t.len() > 0 ==> t[0] != '-' && t.last() != '-'
            &&& (forall|i: int| 0 <= i < s.len() ==> #[trigger] s[i] == '-') ==> t.len() == 0
        }),
{
    lemma_lead_dashes(s);
    let a = lead_dashes(s) as int;
    let rest = s.skip(a);
    lemma_trail_dashes(rest);
    if forall|i: int| 0 <= i < s.len() ==> #[trigger] s[i] == '-' {
        if a < s.len() {
            assert(s[a] == '-');
        }
    }
}

/// The slug of any name is valid; the slug of a slug is itself; a name
/// without an ASCII letter, digit or `_` gets the fallback `experiment`.
pub proof fn lemma_experiment_slug(name: Seq<char>)
    ensures
        valid_slug(spec_experiment_slug(name)),
        spec_experiment_slug(spec_experiment_slug(name)) == spec_experiment_slug(name),
        (forall|k: int| 0 <= k < name.len() ==> !slug_keeps(#[trigger] name[k]))
            ==> spec_experiment_slug(name) == "experiment"@,
{
    let r0 = slug_scan(name, name.len()).0;
    lemma_scan_shape(name, name.len());
    lemma_trim_dashes(r0);
    let t = trim_dashes(r0);
    let a = lead_dashes(r0) as int;
    let r = spec_experiment_slug(name);
    reveal_strlit("experiment");
    if t.len() > 0 {
        assert forall|i: int| 0 <= i < t.len() implies slug_keeps(#[trigger] t[i]) || t[i] == '-' by {
            assert(t[i] == r0[a + i]);
        }
        assert forall|i: int, j: int|
            0 <= i && j == i + 1 && j < t.len() implies !(#[trigger] t[i] == '-' && #[trigger] t[j]
                == '-') by {
            assert(t[i] == r0[a + i] && t[j] == r0[a + j]);
        }
    }
    assert(valid_slug(r));
    lemma_valid_slug_fixed(r);
}

/// A valid slug is its own slug.
proof fn lemma_valid_slug_fixed(r: Seq<char>)
    requires
        valid_slug(r),
    ensures
        spec_experiment_slug(r) == r,
{
    assert forall|n: nat| n <= r.len() implies slug_scan(r, n) == (r.take(n as int), n > 0 && r[n - 1]
        == '-') by {
        lemma_scan_prefix(r, n);
    }
    assert(r.take(r.len() as int) =~= r);
    lemma_lead_dashes(r);
    lemma_trail_dashes(r);
    assert(lead_dashes(r) == 0);
    assert(r.skip(0) =~= r);
    assert(trail_dashes(r) == 0);
    assert(r.take(r.len() - 0) =~= r);
}

proof fn lemma_scan_prefix(r: Seq<char>, n: nat)
    requires
        valid_slug(r),
        n <= r.len(),
    ensures
        slug_scan(r, n) == (r.take(n as int), n > 0 && r[n - 1] == '-'),
    decreases n,
{
    if n > 0 {
        lemma_scan_prefix(r, (n - 1) as nat);
        let c = r[n - 1];
        if n >= 2 {
            assert(!(r[n - 2] == '-' && r[n - 1] == '-'));
        }
        assert(r.take(n as int) =~= r.take(n - 1).push(c));
    }
}

/// `Path::join` on `/`-separated paths: an absolute `seg` replaces `base`;
/// otherwise a separator is added unless `base` is empty or ends with one.
pub open spec fn path_join(base: Seq<char>, seg: Seq<char>) -> Seq<char> {
    if seg.len() > 0 && seg[0] == '/' {
        seg
    } else if base.len() > 0 && base.last() != '/' {
        base + "/"@ + seg
    } else {
        base + seg
    }
}

/// `base` joined with `seg`.
pub fn join_path(base: &str, seg: &str) -> (p: String)
    ensures
        p@ == path_join(base@, seg@),
{
    let s = chars_of(seg);
    if s.len() > 0 && s[0] == '/' {
        return owned(seg);
    }
    let b = chars_of(base);
    let mut p = owned(base);
    if b.len() > 0 && b[b.len() - 1] != '/' {
        push_str(&mut p, "/");
    }
    push_str(&mut p, seg);
    p
}

pub open spec fn spec_schedule_path(run_dir: Seq<char>, cell_id: Seq<char>) -> Seq<char> {
    path_join(path_join(run_dir, SCHEDULES_DIR@), cell_id + ".json"@)
}

/// The path of a cell's schedule JSON inside a run directory.
pub fn schedule_path(run_dir: &str, cell_id: &str) -> (p: String)
    ensures
        p@ == spec_schedule_path(run_dir@, cell_id@),
{
    let dir = join_path(run_dir, SCHEDULES_DIR);
    let mut file = owned(cell_id);
    push_str(&mut file, ".json");
    join_path(dir.as_str(), file.as_str())
}

/// Index of the last `c` in `s`, or -1 when there is none.
pub open spec fn last_index_of(s: Seq<char>, c: char) -> int
    decreases s.len(),
{
    if s.len() == 0 {
        -1
    } else if s.last() == c {
        s.len() - 1
    } else {
        last_index_of(s.drop_last(), c)
    }
}

/// Where the last `c` of a text is, and that no `c` follows it.
pub proof fn lemma_last_index_of(s: Seq<char>, c: char)
    ensures
        -1 <= last_index_of(s, c) < s.len(),
        last_index_of(s, c) >= 0 ==> s[last_index_of(s, c)] == c,
        forall|i: int| last_index_of(s, c) < i < s.len() ==> #[trigger] s[i] != c,
    decreases s.len(),
{
    if s.len() > 0 && s.last() != c {
        lemma_last_index_of(s.drop_last(), c);
        assert forall|i: int| last_index_of(s, c) < i < s.len() implies #[trigger] s[i] != c by {
            if i < s.len() - 1 {
                assert(s[i] == s.drop_last()[i]);
            }
        }
    }
}

/// The final component of a `/`-separated path, as `Path::file_name`
/// gives it on Unix: trailing separators and `.` components are passed
/// over; there is none when the path ends in `..` or has no such component.
pub open spec fn path_file_name(p: Seq<char>) -> Option<Seq<char>>
    decreases p.len(),
{
    if p.len() == 0 {
        None
    } else if p.last() == '/' {
        path_file_name(p.drop_last())
    } else {
        let k = last_index_of(p, '/') + 1;
        let seg = p.skip(k);
        if seg == "."@ {
            proof {
                lemma_last_index_of(p, '/');
            }
            path_file_name(p.take(k))
        } else if seg == ".."@ {
            None
        } else {
            Some(seg)
        }
    }
}

/// A file name without its extension, as `Path::file_stem` cuts it: the
/// part before the last `.`, unless there is no `.` or the only one
/// starts the name.
pub open spec fn name_stem(n: Seq<char>) -> Seq<char> {
    if last_index_of(n, '.') <= 0 {
        n
    } else {
        n.take(last_index_of(n, '.'))
    }
}

/// The stem of the final component of a path.
pub open spec fn path_file_stem(p: Seq<char>) -> Option<Seq<char>> {
    match path_file_name(p) {
        Some(n) => Some(name_stem(n)),
        None => None,
    }
}

/// The position of the last `c` among the first `hi` characters.
fn last_index(v: &Vec<char>, hi: usize, c: char) -> (r: Option<usize>)
    requires
        hi <= v@.len(),
    ensures
        match r {
            Some(i) => i < hi && last_index_of(v@.take(hi as int), c) == i,
            None => last_index_of(v@.take(hi as int), c) == -1,
        },
{
    let mut j = hi;
    while j > 0
        invariant
            j <= hi <= v@.len(),
            last_index_of(v@.take(hi as int), c) == last_index_of(v@.take(j as int), c),
        decreases j,
    {
        if v[j - 1] == c {
            return Some(j - 1);
        }
        proof {
            assert(v@.take(j as int).drop_last() =~= v@.take(j - 1));
        }
        j = j - 1;
    }
    None
}

/// The final component of the path `v`, as a range of its characters.
fn file_name_range(v: &Vec<char>) -> (r: Option<(usize, usize)>)
    ensures
        match r {
            Some((lo, hi)) => lo <= hi <= v@.len() && path_file_name(v@) == Some(
                v@.subrange(lo as int, hi as int),
            ),
            None => path_file_name(v@) is None,
        },
{
    let mut end = v.len();
    assert(v@.take(end as int) =~= v@);
    loop
        invariant
            end <= v@.len(),
            path_file_name(v@.take(end as int)) == path_file_name(v@),
        decreases end,
    {
        if end == 0 {
            return None;
        }
        let ghost p = v@.take(end as int);
        proof {
            reveal_strlit(".");
            reveal_strlit("..");
        }
        if v[end - 1] == '/' {
            proof {
                assert(p.drop_last() =~= v@.take(end - 1));
            }
            end = end - 1;
            continue;
        }
        let start: usize = match last_index(v, end, '/') {
            Some(k) => k + 1,
            None => 0,
        };
        proof {
            lemma_last_index_of(p, '/');
            assert(p.skip(start as int) =~= v@.subrange(start as int, end as int));
        }
        let len = end - start;
        if len == 1 && v[start] == '.' {
            proof {
                assert(p.skip(start as int) =~= "."@);
                assert(p.take(start as int) =~= v@.take(start as int));
            }
            end = start;
            continue;
        }
        proof {
            assert(p.skip(start as int) != "."@) by {
                if p.skip(start as int) == "."@ {
                    assert(p.skip(start as int)[0] == '.');
                }
            }
        }
        if len == 2 && v[start] == '.' && v[start + 1] == '.' {
            proof {
                assert(p.skip(start as int) =~= ".."@);
            }
            return None;
        }
        proof {
            assert(p.skip(start as int) != ".."@) by {
                if p.skip(start as int) == ".."@ {
                    assert(p.skip(start as int)[0] == '.' && p.skip(start as int)[1] == '.');
                }
            }
        }
        return Some((start, end));
    }
}

/// The file stem of a path, as `Path::file_stem` gives it.
fn file_stem(path: &str) -> (r: Option<String>)
    ensures
        match r {
            Some(s) => path_file_stem(path@) == Some(s@),
            None => path_file_stem(path@) is None,
        },
{
    let v = chars_of(path);
    match file_name_range(&v) {
        None => None,
        Some((lo, hi)) => {
            let name = string_of_range(&v, lo, hi);
            let nv = chars_of(name.as_str());
            proof {
                assert(nv@.take(nv@.len() as int) =~= nv@);
            }
            match last_index(&nv, nv.len(), '.') {
                Some(d) => {
                    if d == 0 {
                        Some(name)
                    } else {
                        Some(string_of_range(&nv, 0, d))
                    }
                },
                None => Some(name),
            }
        },
    }
}

pub open spec fn id_safe(c: char) -> char {
    if is_ascii_alnum(c) || c == '_' || c == '-' {
        c
    } else {
        '_'
    }
}

/// The dataset id derived from a path: the file stem (or `dataset`) with
/// every character other than ASCII letters, digits, `_`, `-` replaced by
/// `_`; an empty result becomes `dataset`.
pub open spec fn spec_dataset_id_from_stem(stem: Option<Seq<char>>) -> Seq<char> {
    let s = match stem {
        Some(x) => x,
        None => "dataset"@,
    };
    let out = s.map_values(|c: char| id_safe(c));
    if out.len() == 0 {
        "dataset"@
    } else {
        out
    }
}

/// A filesystem-safe dataset slug from a dataset path.
pub fn dataset_id_from_path(path: &str) -> (id: String)
    ensures
        id@ == spec_dataset_id_from_stem(path_file_stem(path@)),
{
    let stem = match file_stem(path) {
        Some(s) => s,
        None => owned("dataset"),
    };
    let v = chars_of(stem.as_str());
    let mut out: Vec<char> = Vec::new();
    let mut i: usize = 0;
    while i < v.len()
        invariant
            i <= v.len(),
            out@ == v@.take(i as int).map_values(|c: char| id_safe(c)),
        decreases v.len() - i,
    {
        let c = v[i];
        if ascii_alnum(c) || c == '_' || c == '-' {
            out.push(c);
        } else {
            out.push('_');
        }
        i = i + 1;
        proof {
            assert(out@ =~= v@.take(i as int).map_values(|c: char| id_safe(c)));
        }
    }
    proof {
        assert(v@.take(v@.len() as int) =~= v@);
    }
    if out.len() == 0 {
        owned("dataset")
    } else {
        string_of(&out)
    }
}

/// The name of the `attempt`-th candidate run directory: the timestamped
/// base itself first, then the base with `-1`, `-2`, ...
pub fn run_dir_name(base: &str, attempt: u32) -> (s: String)
    ensures
        s@ == if attempt == 0 {
            base@
        } else {
            base@ + "-"@ + dec(attempt as nat)
        },
{
    let mut s = owned(base);
    if attempt > 0 {
        push_str(&mut s, "-");
        push_decimal(&mut s, attempt as u64);
    }
    s
}

/// Candidate run directory names tried before giving up.
pub const RUN_DIR_ATTEMPTS: u32 = 100;

} // verus!
