//! Decisions of the registry export: which form of the command was asked
//! for, when a run key needs prefix resolution, and the file name each
//! exported schedule gets.
use vstd::prelude::*;
use vstd::string::*;

use crate::registry::RunRow;
use crate::runner::string_views;
use crate::table::{byte_len, cuts_between_chars, utf8_cut, utf8_prefix};
use crate::text::{owned, push_str, str_eq};

verus! {

/// The two forms of the export command.
#[derive(Debug, Clone, Copy, PartialEq, Eq)]
pub enum ExportMode {
    /// One run (`--run`) into one file (`--out`).
    Single,
    /// The rows of a filtered listing into a directory (`--out-dir`).
    Batch,
}

pub open spec fn spec_export_mode(run: bool, out: bool, out_dir: bool) -> Result<
    ExportMode,
    Seq<char>,
> {
    if run && out && !out_dir {
        Ok(ExportMode::Single)
    } else if !run && !out && out_dir {
        Ok(ExportMode::Batch)
    } else if run && !out {
        Err("--run requires --out for single-run export"@)
    } else if !run && out {
        Err("--out requires --run for single-run export"@)
    } else if run && out && out_dir {
        Err("--out and --out-dir are mutually exclusive"@)
    } else {
        Err("registry export requires either --run + --out (single) or --out-dir (filtered)"@)
    }
}

/// The export form given which of `--run`, `--out`, `--out-dir` are set.
pub fn export_mode(run: bool, out: bool, out_dir: bool) -> (r: Result<ExportMode, String>)
    ensures
        match spec_export_mode(run, out, out_dir) {
            Ok(m) => r == Ok::<ExportMode, String>(m),
            Err(e) => r is Err && r->Err_0@ == e,
        },
{
    if run && out && !out_dir {
        Ok(ExportMode::Single)
    } else if !run && !out && out_dir {
        Ok(ExportMode::Batch)
    } else if run && !out {
        Err(owned("--run requires --out for single-run export"))
    } else if !run && out {
        Err(owned("--out requires --run for single-run export"))
    } else if run && out && out_dir {
        Err(owned("--out and --out-dir are mutually exclusive"))
    } else {
        Err(owned("registry export requires either --run + --out (single) or --out-dir (filtered)"))
    }
}

/// A run key given in full (64 bytes) is used as it is; anything shorter
/// or longer is resolved as a prefix.
pub fn is_full_run_key(key: &str) -> (r: bool)
    ensures
        r == (vstd::utf8::encode_utf8(key@).len() == 64),
{
    key.as_bytes().len() == 64
}

/// `<dataset>__<algorithm>__<config>`, the stem of an exported file.
pub open spec fn export_stem(row: RunRow) -> Seq<char> {
    row.dataset_id@ + "__"@ + row.algorithm@ + "__"@ + row.config_slug@
}

/// Where the run key is cut: after its 8th byte, or at its end if shorter.
pub open spec fn prefix_cut(row: RunRow) -> nat {
    if byte_len(row.run_key@) <= 8 {
        byte_len(row.run_key@)
    } else {
        8
    }
}

/// The run key up to its cut.
pub open spec fn key_prefix(row: RunRow) -> Seq<char> {
    utf8_prefix(row.run_key@, prefix_cut(row))
}

/// File names of the exported rows, with the set of names taken so far. A
/// row without a stored schedule gets no file. A row whose stem was taken
/// before gets the run key's prefix appended to it.
pub open spec fn export_names(rows: Seq<RunRow>, n: nat) -> (Seq<Option<Seq<char>>>, Set<Seq<char>>)
    decreases n,
{
    if n == 0 {
        (Seq::empty(), Set::empty())
    } else {
        let (names, used) = export_names(rows, (n - 1) as nat);
        let row = rows[n - 1];
        if row.schedule_json is None {
            (names.push(None), used)
        } else {
            let base = export_stem(row) + ".json"@;
            let name = if used.contains(base) {
                export_stem(row) + "__"@ + key_prefix(row) + ".json"@
            } else {
                base
            };
            (names.push(Some(name)), used.insert(name).insert(base))
        }
    }
}

/// Row `i` gets the run key's prefix in its file name: it has a schedule
/// and its stem was taken by an earlier row.
pub open spec fn needs_key_prefix(rows: Seq<RunRow>, i: int) -> bool {
    &&& rows[i].schedule_json is Some
    &&& export_names(rows, i as nat).1.contains(export_stem(rows[i]) + ".json"@)
}

/// Each run key that is cut is cut between two characters.
pub open spec fn prefix_cuts_on_char_boundaries(rows: Seq<RunRow>) -> bool {
    forall|i: int|
        0 <= i < rows.len() && #[trigger] needs_key_prefix(rows, i) ==> cuts_between_chars(
            rows[i].run_key@,
            prefix_cut(rows[i]),
        )
}

fn contains_name(used: &Vec<String>, name: &str) -> (r: bool)
    ensures
        r == string_views(used@).contains(name@),
{
    let ghost u = string_views(used@);
    let mut i: usize = 0;
    while i < used.len()
        invariant
            i <= used.len(),
            u == string_views(used@),
            !u.take(i as int).contains(name@),
        decreases used.len() - i,
    {
        if str_eq(used[i].as_str(), name) {
            proof {
                assert(u[i as int] == name@);
            }
            return true;
        }
        proof {
            assert(u.take(i + 1) =~= u.take(i as int).push(u[i as int]));
            crate::runner::lemma_push_contains(u.take(i as int), u[i as int], name@);
        }
        i = i + 1;
    }
    proof {
        assert(u.take(used@.len() as int) =~= u);
    }
    false
}

/// The file name of each exported row (`None` for a row without a stored
/// schedule), in listing order.
pub fn export_file_names(rows: &Vec<RunRow>) -> (r: Vec<Option<String>>)
    requires
        prefix_cuts_on_char_boundaries(rows@),
    ensures
        r@.map_values(
            |o: Option<String>|
                match o {
                    Some(s) => Some(s@),
                    None => None,
                },
        ) == export_names(rows@, rows@.len()).0,
{
    let mut out: Vec<Option<String>> = Vec::new();
    let mut used: Vec<String> = Vec::new();
    let mut i: usize = 0;
    while i < rows.len()
        invariant
            i <= rows.len(),
            prefix_cuts_on_char_boundaries(rows@),
            out@.map_values(
                |o: Option<String>|
                    match o {
                        Some(s) => Some(s@),
                        None => None,
                    },
            ) == export_names(rows@, i as nat).0,
            forall|x: Seq<char>|
                #[trigger] string_views(used@).contains(x) <==> export_names(
                    rows@,
                    i as nat,
                ).1.contains(x),
        decreases rows.len() - i,
    {
        let row = &rows[i];
        let ghost ov = out@.map_values(
            |o: Option<String>|
                match o {
                    Some(s) => Some(s@),
                    None => None,
                },
        );
        let ghost uv = string_views(used@);
        if row.schedule_json.is_none() {
            out.push(None);
            proof {
                assert(out@.map_values(
                    |o: Option<String>|
                        match o {
                            Some(s) => Some(s@),
                            None => None,
                        },
                ) =~= ov.push(None));
            }
        } else {
            let mut stem = owned(row.dataset_id.as_str());
            push_str(&mut stem, "__");
            push_str(&mut stem, row.algorithm.as_str());
            push_str(&mut stem, "__");
            push_str(&mut stem, row.config_slug.as_str());
            let mut base = stem.clone();
            push_str(&mut base, ".json");
            proof {
                assert(base@ == export_stem(*row) + ".json"@);
            }
            let taken = contains_name(&used, base.as_str());
            let name = if taken {
                let key = row.run_key.as_str();
                let n = key.as_bytes().len();
                let end: usize = if n <= 8 {
                    n
                } else {
                    8
                };
                proof {
                    assert(needs_key_prefix(rows@, i as int));
                    assert(end == prefix_cut(rows@[i as int]));
                }
                let prefix = utf8_cut(key, end);
                let mut name = stem;
                push_str(&mut name, "__");
                push_str(&mut name, prefix);
                push_str(&mut name, ".json");
                name
            } else {
                base.clone()
            };
            proof {
                assert(base@ == export_stem(*row) + ".json"@);
            }
            let ghost nv = name@;
            used.push(name.clone());
            used.push(base);
            out.push(Some(name));
            proof {
                assert(out@.map_values(
                    |o: Option<String>|
                        match o {
                            Some(s) => Some(s@),
                            None => None,
                        },
                ) =~= ov.push(Some(nv)));
                assert(string_views(used@) =~= uv.push(nv).push(
                    export_stem(*row) + ".json"@,
                ));
                assert forall|x: Seq<char>| #[trigger] string_views(used@).contains(x)
                    <==> export_names(rows@, (i + 1) as nat).1.contains(x) by {
                    crate::runner::lemma_push_contains(uv, nv, x);
                    crate::runner::lemma_push_contains(
                        uv.push(nv),
                        export_stem(*row) + ".json"@,
                        x,
                    );
                }
            }
        }
        i = i + 1;
    }
    out
}

} // verus!
