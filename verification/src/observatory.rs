//! Which CTAO observatory a dataset belongs to, inferred from the markers
//! in its directory name and file names.
use vstd::prelude::*;
use vstd::string::*;

use crate::text::{chars_of, contains_exec, contains_seq, owned, push_str, upper_exec, upper_seq};

verus! {

/// The two CTAO sites.
#[derive(Debug, Clone, Copy, PartialEq, Eq, Structural)]
pub enum CtaoObservatory {
    North,
    South,
}

impl CtaoObservatory {
    pub open spec fn spec_code(self) -> Seq<char> {
        match self {
            CtaoObservatory::North => "CTA-N"@,
            CtaoObservatory::South => "CTA-S"@,
        }
    }

    /// `CTA-N` or `CTA-S`.
    pub fn code(self) -> (s: &'static str)
        ensures
            s@ == self.spec_code(),
    {
        match self {
            CtaoObservatory::North => "CTA-N",
            CtaoObservatory::South => "CTA-S",
        }
    }

    /// Resource id of the site's telescope: 0 north, 1 south.
    pub fn telescope_id(self) -> (id: u64)
        ensures
            id == (if self == CtaoObservatory::North {
                0u64
            } else {
                1u64
            }),
    {
        match self {
            CtaoObservatory::North => 0,
            CtaoObservatory::South => 1,
        }
    }
}

pub open spec fn dir_north(u: Seq<char>) -> bool {
    contains_seq(u, "CTA-N"@) || contains_seq(u, "CTA_N"@)
}

pub open spec fn dir_south(u: Seq<char>) -> bool {
    contains_seq(u, "CTA-S"@) || contains_seq(u, "CTA_S"@)
}

pub open spec fn file_north(u: Seq<char>) -> bool {
    contains_seq(u, "_N_"@) || contains_seq(u, "CTA-N"@) || contains_seq(u, "CTA_N"@)
}

pub open spec fn file_south(u: Seq<char>) -> bool {
    contains_seq(u, "_S_"@) || contains_seq(u, "CTA-S"@) || contains_seq(u, "CTA_S"@)
}

pub open spec fn lst_mark(u: Seq<char>) -> bool {
    contains_seq(u, "LST"@)
}

/// Markers seen in the directory name and in the first `n` file names
/// (upper-cased): north, south, LST cycle. Files without a UTF-8 name are
/// skipped.
pub open spec fn marks(dir: Seq<char>, files: Seq<Option<Seq<char>>>, n: nat) -> (bool, bool, bool)
    decreases n,
{
    if n == 0 {
        let u = upper_seq(dir);
        (dir_north(u), dir_south(u), lst_mark(u))
    } else {
        let m = marks(dir, files, (n - 1) as nat);
        match files[n - 1] {
            None => m,
            Some(name) => {
                let u = upper_seq(name);
                (m.0 || file_north(u), m.1 || file_south(u), m.2 || lst_mark(u))
            },
        }
    }
}

pub open spec fn both_error(dir: Seq<char>) -> Seq<char> {
    "cannot infer a single observatory from "@ + dir
        + ": both CTA-N and CTA-S markers were found"@
}

pub open spec fn none_error(dir: Seq<char>) -> Seq<char> {
    "cannot infer observatory from "@ + dir
        + ": expected CTA-N/CTA-S in directory or file names"@
}

/// North when only north markers are seen, south when only south markers
/// are; with neither, an LST marker means north; otherwise an error.
pub open spec fn spec_infer(dir: Seq<char>, files: Seq<Option<Seq<char>>>) -> Result<
    CtaoObservatory,
    Seq<char>,
> {
    let m = marks(dir, files, files.len());
    if m.0 && !m.1 {
        Ok(CtaoObservatory::North)
    } else if !m.0 && m.1 {
        Ok(CtaoObservatory::South)
    } else if !m.0 && !m.1 && m.2 {
        Ok(CtaoObservatory::North)
    } else if m.0 && m.1 {
        Err(both_error(dir))
    } else {
        Err(none_error(dir))
    }
}

pub open spec fn names_view(files: Seq<Option<String>>) -> Seq<Option<Seq<char>>> {
    files.map_values(
        |f: Option<String>|
            match f {
                Some(s) => Some(s@),
                None => None,
            },
    )
}

fn has(u: &Vec<char>, pat: &str) -> (b: bool)
    ensures
        b == contains_seq(u@, pat@),
{
    let p = chars_of(pat);
    contains_exec(u, &p)
}

/// Infers the observatory from a dataset directory and the names of its
/// JSON files (`None` for a name that is not UTF-8).
pub fn infer_observatory(dataset_dir: &str, file_names: &Vec<Option<String>>) -> (r: Result<
    CtaoObservatory,
    String,
>)
    ensures
        match spec_infer(dataset_dir@, names_view(file_names@)) {
            Ok(o) => r == Ok::<CtaoObservatory, String>(o),
            Err(e) => r is Err && r->Err_0@ == e,
        },
{
    let ghost fv = names_view(file_names@);
    let d = upper_exec(&chars_of(dataset_dir));
    let mut saw_north = has(&d, "CTA-N") || has(&d, "CTA_N");
    let mut saw_south = has(&d, "CTA-S") || has(&d, "CTA_S");
    let mut saw_lst = has(&d, "LST");
    let mut i: usize = 0;
    while i < file_names.len()
        invariant
            i <= file_names.len(),
            fv == names_view(file_names@),
            marks(dataset_dir@, fv, i as nat) == (saw_north, saw_south, saw_lst),
        decreases file_names.len() - i,
    {
        assert(fv[i as int] == match file_names@[i as int] {
            Some(s) => Some(s@),
            None => None::<Seq<char>>,
        });
        match &file_names[i] {
            None => {},
            Some(name) => {
                let u = upper_exec(&chars_of(name.as_str()));
                let n = has(&u, "_N_") || has(&u, "CTA-N") || has(&u, "CTA_N");
                let s = has(&u, "_S_") || has(&u, "CTA-S") || has(&u, "CTA_S");
                let l = has(&u, "LST");
                saw_north = saw_north || n;
                saw_south = saw_south || s;
                saw_lst = saw_lst || l;
            },
        }
        i = i + 1;
    }
    if saw_north && !saw_south {
        Ok(CtaoObservatory::North)
    } else if !saw_north && saw_south {
        Ok(CtaoObservatory::South)
    } else if !saw_north && !saw_south && saw_lst {
        Ok(CtaoObservatory::North)
    } else if saw_north && saw_south {
        let mut msg = owned("cannot infer a single observatory from ");
        push_str(&mut msg, dataset_dir);
        push_str(&mut msg, ": both CTA-N and CTA-S markers were found");
        Err(msg)
    } else {
        let mut msg = owned("cannot infer observatory from ");
        push_str(&mut msg, dataset_dir);
        push_str(&mut msg, ": expected CTA-N/CTA-S in directory or file names");
        Err(msg)
    }
}

proof fn lemma_marks_seen(dir: Seq<char>, files: Seq<Option<Seq<char>>>, n: nat)
    requires
        n <= files.len(),
    ensures
        marks(dir, files, n).0 == (contains_seq(upper_seq(dir), "CTA-N"@) || contains_seq(
            upper_seq(dir),
            "CTA_N"@,
        ) || exists|i: int|
            0 <= i < n && #[trigger] files[i] is Some && (contains_seq(
                upper_seq(files[i]->Some_0),
                "_N_"@,
            ) || contains_seq(upper_seq(files[i]->Some_0), "CTA-N"@) || contains_seq(
                upper_seq(files[i]->Some_0),
                "CTA_N"@,
            ))),
        marks(dir, files, n).1 == (contains_seq(upper_seq(dir), "CTA-S"@) || contains_seq(
            upper_seq(dir),
            "CTA_S"@,
        ) || exists|i: int|
            0 <= i < n && #[trigger] files[i] is Some && (contains_seq(
                upper_seq(files[i]->Some_0),
                "_S_"@,
            ) || contains_seq(upper_seq(files[i]->Some_0), "CTA-S"@) || contains_seq(
                upper_seq(files[i]->Some_0),
                "CTA_S"@,
            ))),
        marks(dir, files, n).2 == (contains_seq(upper_seq(dir), "LST"@) || exists|i: int|
            0 <= i < n && #[trigger] files[i] is Some && contains_seq(
                upper_seq(files[i]->Some_0),
                "LST"@,
            )),
    decreases n,
{
    if n > 0 {
        lemma_marks_seen(dir, files, (n - 1) as nat);
        let k = n - 1;
        if files[k] is Some {
            assert(files[k as int] is Some);
        }
    }
}

/// A dataset is inferred as north when a north marker is seen and no south
/// marker is, as south in the mirror case, and is refused when both are
/// seen; with neither, an `LST` marker means north and its absence is an
/// error. The markers are read upper-cased: `CTA-N`/`CTA_N` (`CTA-S`/`CTA_S`)
/// in the directory name, and those or `_N_` (`_S_`) in a file name.
pub proof fn lemma_infer_from_markers(dir: Seq<char>, files: Seq<Option<Seq<char>>>)
    ensures
        ({
            let u = upper_seq(dir);
            let north = contains_seq(u, "CTA-N"@) || contains_seq(u, "CTA_N"@) || exists|i: int|
                0 <= i < files.len() && #[trigger] files[i] is Some && (contains_seq(
                    upper_seq(files[i]->Some_0),
                    "_N_"@,
                ) || contains_seq(upper_seq(files[i]->Some_0), "CTA-N"@) || contains_seq(
                    upper_seq(files[i]->Some_0),
                    "CTA_N"@,
                ));
            let south = contains_seq(u, "CTA-S"@) || contains_seq(u, "CTA_S"@) || exists|i: int|
                0 <= i < files.len() && #[trigger] files[i] is Some && (contains_seq(
                    upper_seq(files[i]->Some_0),
                    "_S_"@,
                ) || contains_seq(upper_seq(files[i]->Some_0), "CTA-S"@) || contains_seq(
                    upper_seq(files[i]->Some_0),
                    "CTA_S"@,
                ));
            let lst = contains_seq(u, "LST"@) || exists|i: int|
                0 <= i < files.len() && #[trigger] files[i] is Some && contains_seq(
                    upper_seq(files[i]->Some_0),
                    "LST"@,
                );
            &&& north && !south ==> spec_infer(dir, files) == Ok::<CtaoObservatory, Seq<char>>(
                CtaoObservatory::North,
            )
            &&& south && !north ==> spec_infer(dir, files) == Ok::<CtaoObservatory, Seq<char>>(
                CtaoObservatory::South,
            )
            &&& north && south ==> spec_infer(dir, files) is Err
            &&& !north && !south && lst ==> spec_infer(dir, files) == Ok::<
                CtaoObservatory,
                Seq<char>,
            >(CtaoObservatory::North)
            &&& !north && !south && !lst ==> spec_infer(dir, files) is Err
        }),
{
    lemma_marks_seen(dir, files, files.len());
}

} // verus!
