use lab::query::parse_sort_key;
use lab::registry::RunRow;
use lab::table::{
    display_columns, extra_sort_columns, metric_table_header, normalize_metric_for_display, table_footer,
    table_row,
};

fn header_line(sort: &Vec<lab::query::SortKey>) -> String {
    metric_table_header(sort).lines().next().unwrap().to_string()
}

fn columns_in_header() {
    let header_line = header_line(&vec![]);
    assert!(header_line.contains("psum"), "header missing psum");
    assert!(header_line.contains("p_ratio"), "header missing p_ratio");
    assert!(header_line.contains("t_ratio"), "header missing t_ratio");
    assert!(header_line.contains("time_r"), "header missing time_r");
    assert!(header_line.contains("density"), "header missing density");
    assert!(header_line.contains("runtime"), "header missing runtime");
    assert!(header_line.contains("created_at"), "header missing created_at");
}

fn default_sort_no_extra() {
    let sort = vec![
        parse_sort_key("scheduled_priority_ratio:desc").unwrap(),
        parse_sort_key("runtime_ms:asc").unwrap(),
    ];
    let header_line = header_line(&sort);
    assert_eq!(header_line.matches("p_ratio").count(), 1);
    assert_eq!(header_line.matches("runtime").count(), 1);
}

#[test]
fn format_metric_columns_appear_in_header() {
    columns_in_header();
}

#[test]
fn main_metric_columns_appear_in_header() {
    columns_in_header();
}

#[test]
fn format_default_sort_metrics_do_not_create_extra_columns() {
    default_sort_no_extra();
}

#[test]
fn main_default_sort_metrics_do_not_create_extra_columns() {
    default_sort_no_extra();
}

#[test]
fn extra_sort_column_is_added_once() {
    let sort = vec![
        parse_sort_key("utilization:desc").unwrap(),
        parse_sort_key("task_ratio:desc").unwrap(),
        parse_sort_key("utilization:asc").unwrap(),
    ];
    let extra = extra_sort_columns(&sort);
    assert_eq!(extra, vec!["utilization".to_string()]);
    let header = metric_table_header(&sort);
    let mut lines = header.lines();
    let first = lines.next().unwrap();
    assert!(first.ends_with(" utilization  created_at"), "{first}");
    let rule = lines.next().unwrap();
    assert_eq!(rule.len(), 158 + 12);
    assert!(rule.chars().all(|c| c == '-'));
}

#[test]
fn header_layout_is_fixed_width() {
    let header = metric_table_header(&vec![]);
    let first = header.lines().next().unwrap();
    assert_eq!(
        first,
        "run_key (prefix)    dataset       algo      config_slug                          psum   p_ratio   t_ratio    time_r   density     runtime  created_at"
    );
    assert_eq!(header.lines().nth(1).unwrap().len(), 158);
    assert_eq!(table_footer(3), "(3 rows)\n");
}

#[test]
fn display_metrics_normalize_aliases() {
    assert_eq!(normalize_metric_for_display("task_ratio"), "scheduled_task_ratio");
    assert_eq!(normalize_metric_for_display("priority_ratio"), "scheduled_priority_ratio");
    assert_eq!(normalize_metric_for_display("scheduler_runtime_ms"), "runtime_ms");
    assert_eq!(normalize_metric_for_display("utilization"), "utilization");
    let cols = display_columns();
    assert_eq!(cols.len(), 6);
    assert_eq!(cols[0].header, "psum");
    assert_eq!(cols[5].width, 10);
}

fn run_row(key: &str, dataset: &str, slug: &str) -> RunRow {
    RunRow {
        run_key: key.to_string(),
        dataset_id: dataset.to_string(),
        dataset_path: "/data/x.json".to_string(),
        algorithm: "est".to_string(),
        config_slug: slug.to_string(),
        identity_json: "{}".to_string(),
        metrics_json: "{}".to_string(),
        metadata_json: None,
        schedule_hash: None,
        schedule_json: None,
        created_at: "2024-05-26T10:00:00Z".to_string(),
        last_seen_at: "2024-05-26T10:00:00Z".to_string(),
        source_cell_id: None,
    }
}

fn some(s: &str) -> Option<String> {
    Some(s.to_string())
}

#[test]
fn table_row_right_aligns_values_under_their_headers() {
    let row = run_row("0123456789abcdef0123", "ds", "e1-k1-b1");
    let cells = vec![
        some("1234.56"),
        some("0.8123"),
        some("0.7000"),
        some("0.6421"),
        some("1.1604"),
        some("98.20"),
    ];
    let line = table_row(&row, &cells);
    let expected = format!(
        "{:<18}  {:<12}  {:<8}  {:<30}  {:>9}  {:>8}  {:>8}  {:>8}  {:>8}  {:>10}  2024-05-26T10:00:00Z\n",
        "0123456789abcdef", "ds", "est", "e1-k1-b1", "1234.56", "0.8123", "0.7000", "0.6421", "1.1604", "98.20"
    );
    assert_eq!(line, expected);
    let header = header_line(&vec![]);
    assert_eq!(line.trim_end().len(), header.len() - "created_at".len() + "2024-05-26T10:00:00Z".len());
}

#[test]
fn table_row_shows_dash_for_missing_values() {
    let row = run_row("k", "ds", "s");
    let line = table_row(&row, &vec![None, None, None, None, None, None]);
    assert!(!line.contains("0.0000"));
    assert!(!line.contains(" 0.00"));
    assert_eq!(line.matches(" -").count(), 6);
    assert!(line.contains(&format!("{:>9}", "-")));
}

#[test]
fn table_row_appends_extra_sort_columns_and_truncates_long_labels() {
    let row = run_row("abc", "a-very-long-dataset", "slug");
    let line = table_row(&row, &vec![None, None, None, None, None, None, some("0.7500")]);
    assert!(line.starts_with(&format!("{:<18}  a-very-lon..  est       slug", "abc")));
    assert!(line.contains(&format!("  {:>10}  2024", "0.7500")));
}

#[test]
fn labels_are_truncated_by_characters() {
    let row = run_row("k", "\u{e9}\u{e9}\u{e9}\u{e9}\u{e9}\u{e9}\u{e9}\u{e9}", "s");
    let line = table_row(&row, &vec![]);
    assert!(line.contains("  \u{e9}\u{e9}\u{e9}\u{e9}\u{e9}\u{e9}\u{e9}\u{e9}      est"));
    let long = run_row("k", "\u{e9}\u{e9}\u{e9}\u{e9}\u{e9}\u{e9}\u{e9}\u{e9}\u{e9}\u{e9}\u{e9}\u{e9}\u{e9}", "s");
    let line = table_row(&long, &vec![]);
    assert!(line.contains("  \u{e9}\u{e9}\u{e9}\u{e9}\u{e9}\u{e9}\u{e9}\u{e9}\u{e9}\u{e9}..  est"));
}
