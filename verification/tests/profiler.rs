use qi_tools::profiler::flame::{display_width, pad_display, FlameConfig};
use qi_tools::profiler::report::{ansi, truncate_name};
use qi_tools::profiler::runner::{combine_output, RunConfig};

#[test]
fn widths_count_cjk_as_two_columns() {
    assert_eq!(display_width(""), 0);
    assert_eq!(display_width("main"), 4);
    assert_eq!(display_width("斐波那契"), 8);
    assert_eq!(display_width("fib斐"), 5);
}

#[test]
fn padding_right_aligns() {
    assert_eq!(pad_display("入口", 6), "  入口");
    assert_eq!(pad_display("main", 4), "main");
    assert_eq!(pad_display("toolong", 3), "toolong");
}

#[test]
fn truncation_marks_cut_names() {
    assert_eq!(truncate_name("short", 20), "short");
    assert_eq!(truncate_name("abcdef", 4), "abcd..");
    assert_eq!(truncate_name("斐波那契数列", 7), "斐波那..");
    assert_eq!(truncate_name("", 0), "");
    assert_eq!(truncate_name("a", 0), "..");
}

#[test]
fn ansi_codes() {
    assert_eq!(ansi(true), ("\x1b[1m", "\x1b[0m", "\x1b[2m"));
    assert_eq!(ansi(false), ("", "", ""));
}

#[test]
fn output_merging() {
    assert_eq!(combine_output("out".to_string(), "err"), "out\nerr");
    assert_eq!(combine_output("out\n".to_string(), "err"), "out\nerr");
    assert_eq!(combine_output(String::new(), "err"), "err");
    assert_eq!(combine_output("输出".to_string(), ""), "输出\n");
}

#[test]
fn defaults() {
    let f = FlameConfig::default();
    assert_eq!((f.width, f.max_rows, f.color, f.show_flame), (78, 15, true, true));
    let r = RunConfig::default();
    assert_eq!(r.qi_bin, "qi");
    assert!(r.args.is_empty());
    assert_eq!(r.timeout_secs, 60);
    assert!(r.optimization.is_none());
    assert!(!r.quiet_stdout);
}

use qi_tools::profiler::parser::parse_profile_table;

#[test]
fn test_parse_basic_report() {
    let output = r#"你好世界
=== Qi Profiler (wall-inclusive) ===
函数                         调用次数      总耗时(ms)      每次(µs)     占比%
入口                                1       42.300       42300.000   100.0%
斐波那契                         177       41.800         236.158    98.8%
=== (占比以最大值为 100% 基准；wall-inclusive 含子调用与插桩开销) ===
"#;
    let t = parse_profile_table(output);
    assert_eq!(t.rows.len(), 2);
    assert_eq!(t.rows[0].name, "入口");
    assert_eq!(t.rows[0].calls, 1);
    assert_eq!(t.rows[0].total_ms, "42.300");
    assert_eq!(t.rows[0].avg_us, "42300.000");
    assert_eq!(t.rows[0].pct, "100.0");
    assert_eq!(t.rows[1].name, "斐波那契");
    assert_eq!(t.rows[1].calls, 177);
    assert!((t.rows[0].total_ms.parse::<f64>().unwrap() - 42.3).abs() < 0.01);
    assert!(t.stdout.contains("你好世界"));
    assert_eq!(t.stdout, "你好世界");
}

#[test]
fn report_edge_cases() {
    let output = "a\n[qi-rc] 诊断\nb\n=== Qi Profiler ===\nmy fn name  x  1.0  2.0  3%%\n短 行\n+7 1 2 3 4\n=== (end) ===\nc";
    let t = parse_profile_table(output);
    assert_eq!(t.stdout, "a\nb\nc");
    assert_eq!(t.rows.len(), 2);
    assert_eq!(t.rows[0].name, "my fn name");
    assert_eq!(t.rows[0].calls, 0);
    assert_eq!(t.rows[0].pct, "3");
    assert_eq!(t.rows[1].name, "+7");
    assert_eq!(t.rows[1].calls, 1);
    let big = parse_profile_table("=== Qi Profiler\nf 18446744073709551616 1 2 3\ng +18446744073709551615 1 2 3\n");
    assert_eq!(big.rows[0].calls, 0);
    assert_eq!(big.rows[1].calls, 18446744073709551615);
    assert_eq!(big.stdout, "");
}

use qi_tools::profiler::compare::{find_name, function_pairs, shorten_name};
use qi_tools::profiler::flame::{
    bar_area, bar_color, color_index, flame_config, name_column_width, rows_left_out,
};
use qi_tools::profiler::runner::{compile_args, wait_step, WaitAction};
use qi_tools::profiler::stats::function_names;

fn names(v: &[&str]) -> Vec<String> {
    v.iter().map(|s| s.to_string()).collect()
}

#[test]
fn comparison_pairs_by_name() {
    let base = names(&["入口", "fib", "gone"]);
    let target = names(&["fib", "new", "入口", "fib"]);
    let pairs = function_pairs(&base, &target);
    assert_eq!(
        pairs,
        vec![
            (Some(0), Some(2)),
            (Some(1), Some(0)),
            (Some(2), None),
            (None, Some(1)),
        ]
    );
    assert_eq!(function_pairs(&Vec::new(), &Vec::new()), vec![]);
    assert_eq!(function_pairs(&Vec::new(), &names(&["a"])), vec![(None, Some(0))]);
}

#[test]
fn first_match_is_found() {
    let v = names(&["a", "b", "a"]);
    assert_eq!(find_name(&v, &"a".to_string()), Some(0));
    assert_eq!(find_name(&v, &"b".to_string()), Some(1));
    assert_eq!(find_name(&v, &"c".to_string()), None);
}

#[test]
fn comparison_names_are_shortened() {
    assert_eq!(shorten_name("abcdefghijklmnopqr"), "abcdefghijklmnopqr");
    assert_eq!(shorten_name("abcdefghijklmnopqrs"), "abcdefghijklmnop..");
    assert_eq!(shorten_name("一二三四五六七八九十一二三四五六七八九"), "一二三四五六七八九十一二三四五六..");
}

#[test]
fn names_of_runs_in_first_seen_order() {
    let runs = vec![names(&["入口", "fib"]), names(&["fib", "sort", "入口"]), names(&["sort", "io"])];
    assert_eq!(function_names(&runs), names(&["入口", "fib", "sort", "io"]));
    assert_eq!(function_names(&vec![names(&["a", "a"])]), names(&["a"]));
    assert!(function_names(&Vec::new()).is_empty());
}

#[test]
fn flame_layout() {
    assert_eq!(name_column_width(&Vec::new()), 8);
    assert_eq!(name_column_width(&names(&["ab", "斐波那契"])), 8);
    assert_eq!(name_column_width(&names(&["x"])), 1);
    assert_eq!(name_column_width(&names(&["a_very_long_function_name_indeed_yes"])), 28);
    assert_eq!(bar_area(78, 8), 56);
    assert_eq!(bar_area(20, 8), 0);
    assert_eq!(bar_area(22, 8), 0);
    assert_eq!(color_index(0, 15), 0);
    assert_eq!(color_index(14, 15), 6);
    assert_eq!(color_index(3, 3), 6);
    assert_eq!(color_index(1, 3), 2);
    assert_eq!(color_index(0, 0), 0);
    assert_eq!(bar_color(0), "\x1b[91m");
    assert_eq!(bar_color(6), "\x1b[34m");
    assert_eq!(rows_left_out(20, 15), 5);
    assert_eq!(rows_left_out(15, 15), 0);
    assert_eq!(rows_left_out(3, 15), 0);
    let f = flame_config(80, 10, false, true);
    assert_eq!((f.width, f.max_rows, f.color, f.show_flame), (78, 10, false, true));
    assert_eq!(flame_config(1, 1, true, false).width, 0);
}

#[test]
fn compiler_arguments() {
    let mut cfg = RunConfig::default();
    assert_eq!(compile_args("a.qi", "/tmp/a", &cfg), names(&["compile", "a.qi", "-o", "/tmp/a"]));
    cfg.optimization = Some("maximum".to_string());
    assert_eq!(
        compile_args("a.qi", "/tmp/a", &cfg),
        names(&["compile", "a.qi", "-o", "/tmp/a", "-O", "maximum"])
    );
}

#[test]
fn waiting_for_the_program() {
    assert!(matches!(wait_step(60, true, true), WaitAction::Finished));
    assert!(matches!(wait_step(60, false, true), WaitAction::Terminate));
    assert!(matches!(wait_step(60, false, false), WaitAction::Wait));
    assert!(matches!(wait_step(0, false, true), WaitAction::Wait));
}
