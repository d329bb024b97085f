//! Layout of the registry's metric table: its columns, header, separator
//! and footer. The metric cells themselves are formatted by the caller.
use vstd::prelude::*;
use vstd::string::*;

use crate::query::SortKey;
use crate::registry::RunRow;
use crate::runner::lemma_push_contains;
use crate::text::{dec, owned, push_decimal, push_str, str_eq};

verus! {

/// A metric column shown in every table.
#[derive(Debug, Clone, Copy)]
pub struct DisplayColumn {
    /// Metric name, as sort keys and metrics JSON use it.
    pub metric: &'static str,
    /// Column header.
    pub header: &'static str,
    /// Column width.
    pub width: usize,
    /// Decimal places of the values.
    pub decimals: usize,
}

/// Width of a column added for a sort metric outside the standard ones.
pub const EXTRA_COLUMN_WIDTH: usize = 10;

pub open spec fn display_column_spec(i: int) -> (Seq<char>, Seq<char>, nat, nat) {
    if i == 0 {
        ("scheduled_priority_sum"@, "psum"@, 9, 2)
    } else if i == 1 {
        ("scheduled_priority_ratio"@, "p_ratio"@, 8, 4)
    } else if i == 2 {
        ("scheduled_task_ratio"@, "t_ratio"@, 8, 4)
    } else if i == 3 {
        ("scheduled_time_ratio"@, "time_r"@, 8, 4)
    } else if i == 4 {
        ("priority_density"@, "density"@, 8, 4)
    } else {
        ("runtime_ms"@, "runtime"@, 10, 2)
    }
}

pub open spec fn column_view(c: DisplayColumn) -> (Seq<char>, Seq<char>, nat, nat) {
    (c.metric@, c.header@, c.width as nat, c.decimals as nat)
}

/// The six standard metric columns, in display order.
pub fn display_columns() -> (r: Vec<DisplayColumn>)
    ensures
        r@.len() == 6,
        forall|i: int| 0 <= i < 6 ==> column_view(#[trigger] r@[i]) == display_column_spec(i),
{
    let mut r: Vec<DisplayColumn> = Vec::new();
    r.push(DisplayColumn { metric: "scheduled_priority_sum", header: "psum", width: 9, decimals: 2 });
    r.push(
        DisplayColumn {
            metric: "scheduled_priority_ratio",
            header: "p_ratio",
            width: 8,
            decimals: 4,
        },
    );
    r.push(DisplayColumn { metric: "scheduled_task_ratio", header: "t_ratio", width: 8, decimals: 4 });
    r.push(DisplayColumn { metric: "scheduled_time_ratio", header: "time_r", width: 8, decimals: 4 });
    r.push(DisplayColumn { metric: "priority_density", header: "density", width: 8, decimals: 4 });
    r.push(DisplayColumn { metric: "runtime_ms", header: "runtime", width: 10, decimals: 2 });
    r
}

pub open spec fn is_display_metric(m: Seq<char>) -> bool {
    exists|i: int| 0 <= i < 6 && #[trigger] display_column_spec(i).0 == m
}

/// The name under which a sort metric is displayed: aliases of standard
/// columns map to the column's metric.
pub open spec fn spec_display_metric(m: Seq<char>) -> Seq<char> {
    if m == "task_ratio"@ || m == "scheduled_task_ratio"@ {
        "scheduled_task_ratio"@
    } else if m == "priority_ratio"@ || m == "scheduled_priority_ratio"@ {
        "scheduled_priority_ratio"@
    } else if m == "scheduler_runtime_ms"@ {
        "runtime_ms"@
    } else {
        m
    }
}

pub fn normalize_metric_for_display(m: &str) -> (r: String)
    ensures
        r@ == spec_display_metric(m@),
{
    if str_eq(m, "task_ratio") || str_eq(m, "scheduled_task_ratio") {
        owned("scheduled_task_ratio")
    } else if str_eq(m, "priority_ratio") || str_eq(m, "scheduled_priority_ratio") {
        owned("scheduled_priority_ratio")
    } else if str_eq(m, "scheduler_runtime_ms") {
        owned("runtime_ms")
    } else {
        owned(m)
    }
}

fn display_metric_known(m: &str) -> (r: bool)
    ensures
        r == is_display_metric(m@),
{
    let r = str_eq(m, "scheduled_priority_sum") || str_eq(m, "scheduled_priority_ratio") || str_eq(
        m,
        "scheduled_task_ratio",
    ) || str_eq(m, "scheduled_time_ratio") || str_eq(m, "priority_density") || str_eq(
        m,
        "runtime_ms",
    );
    proof {
        if r {
            if m@ == "scheduled_priority_sum"@ {
                assert(display_column_spec(0).0 == m@);
            } else if m@ == "scheduled_priority_ratio"@ {
                assert(display_column_spec(1).0 == m@);
            } else if m@ == "scheduled_task_ratio"@ {
                assert(display_column_spec(2).0 == m@);
            } else if m@ == "scheduled_time_ratio"@ {
                assert(display_column_spec(3).0 == m@);
            } else if m@ == "priority_density"@ {
                assert(display_column_spec(4).0 == m@);
            } else {
                assert(display_column_spec(5).0 == m@);
            }
        }
    }
    r
}

/// Columns added for the sort metrics of the first `n` keys that are not
/// standard columns, each once, in the order of the keys.
pub open spec fn extra_columns(keys: Seq<SortKey>, n: nat) -> Seq<Seq<char>>
    decreases n,
{
    if n == 0 {
        Seq::empty()
    } else {
        let prev = extra_columns(keys, (n - 1) as nat);
        let m = spec_display_metric(keys[n - 1].metric@);
        if is_display_metric(m) || prev.contains(m) {
            prev
        } else {
            prev.push(m)
        }
    }
}

/// The extra columns of a table sorted by `sort`.
pub fn extra_sort_columns(sort: &Vec<SortKey>) -> (r: Vec<String>)
    ensures
        r@.map_values(|s: String| s@) == extra_columns(sort@, sort@.len()),
        r@.len() <= sort@.len(),
{
    let mut r: Vec<String> = Vec::new();
    let mut i: usize = 0;
    while i < sort.len()
        invariant
            i <= sort.len(),
            r@.map_values(|s: String| s@) == extra_columns(sort@, i as nat),
            r@.len() <= i,
        decreases sort.len() - i,
    {
        let ghost rv = r@.map_values(|s: String| s@);
        let m = normalize_metric_for_display(sort[i].metric.as_str());
        let mut seen = false;
        let mut j: usize = 0;
        while j < r.len()
            invariant
                j <= r.len(),
                rv == r@.map_values(|s: String| s@),
                seen <==> rv.take(j as int).contains(m@),
            decreases r.len() - j,
        {
            if str_eq(r[j].as_str(), m.as_str()) {
                seen = true;
            }
            proof {
                assert(rv.take(j + 1) =~= rv.take(j as int).push(rv[j as int]));
                lemma_push_contains(rv.take(j as int), rv[j as int], m@);
            }
            j = j + 1;
        }
        proof {
            assert(rv.take(r@.len() as int) =~= rv);
        }
        let known = display_metric_known(m.as_str());
        if !known && !seen {
            r.push(m);
            proof {
                assert(r@.map_values(|s: String| s@) =~= rv.push(
                    spec_display_metric(sort@[i as int].metric@),
                ));
            }
        }
        i = i + 1;
    }
    r
}

pub open spec fn spaces(n: nat) -> Seq<char> {
    Seq::new(n, |i: int| ' ')
}

/// `s` right-aligned in `w` characters.
pub open spec fn pad_left(s: Seq<char>, w: nat) -> Seq<char> {
    if s.len() < w {
        spaces((w - s.len()) as nat) + s
    } else {
        s
    }
}

/// `s` left-aligned in `w` characters.
pub open spec fn pad_right(s: Seq<char>, w: nat) -> Seq<char> {
    if s.len() < w {
        s + spaces((w - s.len()) as nat)
    } else {
        s
    }
}

fn push_spaces(out: &mut String, n: usize)
    ensures
        final(out)@ == old(out)@ + spaces(n as nat),
{
    let mut i: usize = 0;
    while i < n
        invariant
            i <= n,
            out@ == old(out)@ + spaces(i as nat),
        decreases n - i,
    {
        out.push(' ');
        proof {
            assert(out@ =~= old(out)@ + spaces((i + 1) as nat));
        }
        i = i + 1;
    }
}

fn push_pad_left(out: &mut String, s: &str, w: usize)
    ensures
        final(out)@ == old(out)@ + pad_left(s@, w as nat),
{
    let n = s.unicode_len();
    if n < w {
        push_spaces(out, w - n);
    }
    push_str(out, s);
    proof {
        assert(final(out)@ =~= old(out)@ + pad_left(s@, w as nat));
    }
}

fn push_pad_right(out: &mut String, s: &str, w: usize)
    ensures
        final(out)@ == old(out)@ + pad_right(s@, w as nat),
{
    let n = s.unicode_len();
    push_str(out, s);
    if n < w {
        push_spaces(out, w - n);
    }
    proof {
        assert(final(out)@ =~= old(out)@ + pad_right(s@, w as nat));
    }
}

/// Headers of the leading text columns.
pub open spec fn lead_header() -> Seq<char> {
    pad_right("run_key (prefix)"@, 18) + "  "@ + pad_right("dataset"@, 12) + "  "@ + pad_right(
        "algo"@,
        8,
    ) + "  "@ + pad_right("config_slug"@, 30)
}

/// Headers of the first `n` standard metric columns.
pub open spec fn metric_headers(n: nat) -> Seq<char>
    decreases n,
{
    if n == 0 {
        Seq::empty()
    } else {
        metric_headers((n - 1) as nat) + "  "@ + pad_left(
            display_column_spec(n - 1).1,
            display_column_spec(n - 1).2,
        )
    }
}

/// Headers of extra columns.
pub open spec fn extra_headers(cols: Seq<Seq<char>>) -> Seq<char>
    decreases cols.len(),
{
    if cols.len() == 0 {
        Seq::empty()
    } else {
        extra_headers(cols.drop_last()) + "  "@ + pad_left(cols.last(), 10)
    }
}

pub open spec fn dashes(n: nat) -> Seq<char> {
    Seq::new(n, |i: int| '-')
}

/// The two first lines of the table: the header and a dashed rule as wide
/// as the table (158 characters plus 12 per extra column).
pub open spec fn spec_table_header(keys: Seq<SortKey>) -> Seq<char> {
    let extra = extra_columns(keys, keys.len());
    lead_header() + metric_headers(6) + extra_headers(extra) + "  created_at\n"@ + dashes(
        (158 + 12 * extra.len()) as nat,
    ) + "\n"@
}

/// The header and rule of a metric table sorted by `sort`.
pub fn metric_table_header(sort: &Vec<SortKey>) -> (s: String)
    requires
        158 + 12 * sort@.len() <= usize::MAX,
    ensures
        s@ == spec_table_header(sort@),
{
    let extra = extra_sort_columns(sort);
    let ghost ev = extra@.map_values(|s: String| s@);
    let mut out = String::new();
    push_pad_right(&mut out, "run_key (prefix)", 18);
    push_str(&mut out, "  ");
    push_pad_right(&mut out, "dataset", 12);
    push_str(&mut out, "  ");
    push_pad_right(&mut out, "algo", 8);
    push_str(&mut out, "  ");
    push_pad_right(&mut out, "config_slug", 30);
    proof {
        assert(out@ =~= lead_header());
    }
    let cols = display_columns();
    let mut i: usize = 0;
    while i < cols.len()
        invariant
            i <= cols.len(),
            cols@.len() == 6,
            forall|k: int| 0 <= k < 6 ==> column_view(#[trigger] cols@[k]) == display_column_spec(k),
            out@ == lead_header() + metric_headers(i as nat),
        decreases cols.len() - i,
    {
        push_str(&mut out, "  ");
        let c = cols[i];
        proof {
            assert(column_view(cols@[i as int]) == display_column_spec(i as int));
        }
        push_pad_left(&mut out, c.header, c.width);
        proof {
            assert(out@ =~= lead_header() + metric_headers((i + 1) as nat));
        }
        i = i + 1;
    }
    let mut j: usize = 0;
    while j < extra.len()
        invariant
            j <= extra.len(),
            ev == extra@.map_values(|s: String| s@),
            out@ == lead_header() + metric_headers(6) + extra_headers(ev.take(j as int)),
        decreases extra.len() - j,
    {
        push_str(&mut out, "  ");
        push_pad_left(&mut out, extra[j].as_str(), EXTRA_COLUMN_WIDTH);
        proof {
            assert(ev.take(j + 1).drop_last() =~= ev.take(j as int));
            assert(out@ =~= lead_header() + metric_headers(6) + extra_headers(ev.take(j + 1)));
        }
        j = j + 1;
    }
    proof {
        assert(ev.take(extra@.len() as int) =~= ev);
    }
    push_str(&mut out, "  created_at\n");
    let width: usize = 158 + 12 * extra.len();
    let mut k: usize = 0;
    let ghost before = out@;
    while k < width
        invariant
            k <= width,
            out@ == before + dashes(k as nat),
        decreases width - k,
    {
        out.push('-');
        proof {
            assert(out@ =~= before + dashes((k + 1) as nat));
        }
        k = k + 1;
    }
    push_str(&mut out, "\n");
    out
}

/// Number of UTF-8 bytes of a text.
pub open spec fn byte_len(s: Seq<char>) -> nat {
    vstd::utf8::encode_utf8(s).len()
}

/// The characters of a text held in its first `n` bytes.
pub open spec fn utf8_prefix(s: Seq<char>, n: nat) -> Seq<char> {
    vstd::utf8::decode_utf8(vstd::utf8::encode_utf8(s).take(n as int))
}

/// `n` bytes into the text fall between two characters.
pub open spec fn cuts_between_chars(s: Seq<char>, n: nat) -> bool {
    vstd::utf8::is_char_boundary(vstd::utf8::encode_utf8(s), n as int)
}

/// A label shortened to at most `max` characters: a longer one keeps its
/// first `max - 2` characters followed by `..`.
pub open spec fn truncated(s: Seq<char>, max: nat) -> Seq<char> {
    if s.len() <= max {
        s
    } else {
        s.take(if max >= 2 { (max - 2) as int } else { 0 }) + ".."@
    }
}

/// Bytes of the run key shown in a row: 16, or fewer for a shorter key.
pub open spec fn key_shown(row: RunRow) -> nat {
    if byte_len(row.run_key@) <= 16 {
        byte_len(row.run_key@)
    } else {
        16
    }
}

/// The run key shown in a row is cut between two characters.
pub open spec fn row_cuts_fit(row: RunRow) -> bool {
    cuts_between_chars(row.run_key@, key_shown(row))
}

/// The leading text cells of a row, aligned under `lead_header`.
pub open spec fn spec_row_lead(row: RunRow) -> Seq<char> {
    pad_right(utf8_prefix(row.run_key@, key_shown(row)), 18) + "  "@ + pad_right(
        truncated(row.dataset_id@, 12),
        12,
    ) + "  "@ + pad_right(truncated(row.algorithm@, 8), 8) + "  "@ + pad_right(
        truncated(row.config_slug@, 30),
        30,
    )
}

/// Width of the `i`-th metric cell of a row: the standard columns first,
/// then the extra sort columns.
pub open spec fn cell_width(i: int) -> nat {
    if i < 6 {
        display_column_spec(i).2
    } else {
        EXTRA_COLUMN_WIDTH as nat
    }
}

/// A formatted metric value, or `-` for a missing one.
pub open spec fn cell_text(cell: Option<Seq<char>>) -> Seq<char> {
    match cell {
        Some(t) => t,
        None => "-"@,
    }
}

/// The first `n` metric cells of a row, each right-aligned in its column.
pub open spec fn metric_cells(cells: Seq<Option<Seq<char>>>, n: nat) -> Seq<char>
    decreases n,
{
    if n == 0 {
        Seq::empty()
    } else {
        metric_cells(cells, (n - 1) as nat) + "  "@ + pad_left(
            cell_text(cells[n - 1]),
            cell_width(n - 1),
        )
    }
}

/// One table row: the leading cells, the metric cells, and the creation
/// time.
pub open spec fn spec_table_row(row: RunRow, cells: Seq<Option<Seq<char>>>) -> Seq<char> {
    spec_row_lead(row) + metric_cells(cells, cells.len()) + "  "@ + row.created_at@ + "\n"@
}

pub open spec fn cell_views(cells: Seq<Option<String>>) -> Seq<Option<Seq<char>>> {
    cells.map_values(
        |c: Option<String>|
            match c {
                Some(s) => Some(s@),
                None => None,
            },
    )
}

/// The text up to its `n`-th byte.
pub(crate) fn utf8_cut(s: &str, n: usize) -> (r: &str)
    requires
        cuts_between_chars(s@, n as nat),
    ensures
        r@ == utf8_prefix(s@, n as nat),
{
    let (head, _) = s.split_at(n);
    proof {
        vstd::utf8::encode_utf8_decode_utf8(head@);
        assert(vstd::utf8::encode_utf8(s@).take(n as int) =~= head.spec_bytes());
    }
    head
}

/// A label shortened to at most `max` characters.
fn truncate_label(s: &str, max: usize) -> (r: String)
    ensures
        r@ == truncated(s@, max as nat),
{
    let n = s.unicode_len();
    if n <= max {
        owned(s)
    } else {
        let keep: usize = if max >= 2 {
            max - 2
        } else {
            0
        };
        let mut r = owned(s.substring_char(0, keep));
        push_str(&mut r, "..");
        proof {
            assert(s@.subrange(0, keep as int) =~= s@.take(keep as int));
        }
        r
    }
}

/// The leading text cells of a row.
pub fn row_lead_cells(row: &RunRow) -> (r: String)
    requires
        row_cuts_fit(*row),
    ensures
        r@ == spec_row_lead(*row),
{
    let key = row.run_key.as_str();
    let n = key.as_bytes().len();
    let shown: usize = if n <= 16 {
        n
    } else {
        16
    };
    let mut out = String::new();
    push_pad_right(&mut out, utf8_cut(key, shown), 18);
    push_str(&mut out, "  ");
    let ds = truncate_label(row.dataset_id.as_str(), 12);
    push_pad_right(&mut out, ds.as_str(), 12);
    push_str(&mut out, "  ");
    let alg = truncate_label(row.algorithm.as_str(), 8);
    push_pad_right(&mut out, alg.as_str(), 8);
    push_str(&mut out, "  ");
    let slug = truncate_label(row.config_slug.as_str(), 30);
    push_pad_right(&mut out, slug.as_str(), 30);
    proof {
        assert(out@ =~= spec_row_lead(*row));
    }
    out
}

/// One row of the metric table, given the formatted value of each metric
/// cell (`None` for a missing value): the standard columns first, then the
/// extra sort columns.
pub fn table_row(row: &RunRow, cells: &Vec<Option<String>>) -> (r: String)
    requires
        row_cuts_fit(*row),
    ensures
        r@ == spec_table_row(*row, cell_views(cells@)),
{
    let ghost cv = cell_views(cells@);
    let cols = display_columns();
    let mut out = row_lead_cells(row);
    let mut i: usize = 0;
    while i < cells.len()
        invariant
            i <= cells@.len(),
            cv == cell_views(cells@),
            cols@.len() == 6,
            forall|k: int| 0 <= k < 6 ==> column_view(#[trigger] cols@[k]) == display_column_spec(k),
            out@ == spec_row_lead(*row) + metric_cells(cv, i as nat),
        decreases cells@.len() - i,
    {
        let width: usize = if i < 6 {
            proof {
                assert(column_view(cols@[i as int]) == display_column_spec(i as int));
            }
            cols[i].width
        } else {
            EXTRA_COLUMN_WIDTH
        };
        push_str(&mut out, "  ");
        match &cells[i] {
            Some(text) => push_pad_left(&mut out, text.as_str(), width),
            None => push_pad_left(&mut out, "-", width),
        }
        proof {
            assert(out@ =~= spec_row_lead(*row) + metric_cells(cv, (i + 1) as nat));
        }
        i = i + 1;
    }
    push_str(&mut out, "  ");
    push_str(&mut out, row.created_at.as_str());
    push_str(&mut out, "\n");
    out
}

/// The last line of the table: the number of rows.
pub fn table_footer(rows: usize) -> (s: String)
    ensures
        s@ == "("@ + dec(rows as nat) + " rows)\n"@,
{
    let mut s = owned("(");
    push_decimal(&mut s, rows as u64);
    push_str(&mut s, " rows)\n");
    s
}

} // verus!
