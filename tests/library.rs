use sold::args::{Args, KeyAction, OutputMode};
use sold::error::BuildError;
use sold::interpret::{
    collect_asts, parse_comp_result, parse_entry, scan_diagnostics, select_unit, Severity,
};
use sold::json::Json;
use sold::plan::{artifact_name, check_output_prefix, output_file};
use sold::position::{compute_line_info, get_line_column, PositionError, PositionIndex};
use sold::render::{decimal_text, decimal_width, render_diagnostic, render_report, split_lines};
use sold::request::{compile_request, include_paths_text};

fn s(text: &str) -> String {
    text.to_string()
}

fn obj(fields: Vec<(&str, Json)>) -> Json {
    Json::Object(fields.into_iter().map(|(k, v)| (s(k), v)).collect())
}

fn text(v: &str) -> Json {
    Json::Str(s(v))
}

fn diagnostic(severity: &str, file: &str, start: i64) -> Json {
    obj(vec![
        ("severity", text(severity)),
        ("message", text("something is off")),
        ("formattedMessage", text("Warning: something\n --> f.sol:5:21:\n  |\n5 | code")),
        (
            "sourceLocation",
            obj(vec![("file", text(file)), ("start", Json::Int(start)), ("end", Json::Int(start + 3))]),
        ),
    ])
}

fn unit_with_assembly() -> Json {
    obj(vec![("abi", Json::Array(vec![])), ("assembly", text(".fragment main"))])
}

fn unit_without_assembly() -> Json {
    obj(vec![("abi", Json::Array(vec![]))])
}

fn response(errors: Option<Vec<Json>>, units: Vec<(&str, Json)>) -> Json {
    let mut fields = vec![];
    if let Some(e) = errors {
        fields.push((s("errors"), Json::Array(e)));
    }
    fields.push((s("contracts"), obj(vec![("/src/a.sol", obj(units))])));
    fields.push((
        s("sources"),
        obj(vec![
            ("/src/a.sol", obj(vec![("ast", text("tree a"))])),
            ("/src/b.sol", obj(vec![("ast", text("tree b"))])),
        ]),
    ));
    Json::Object(fields)
}

fn default_args() -> Args {
    Args {
        input: s("a.sol"),
        contract: None,
        output_dir: None,
        output_prefix: None,
        include_path: vec![],
        lib: None,
        ctor_params: None,
        gen_key: None,
        set_key: None,
        init: None,
        function_ids: false,
        ast_json: false,
        ast_compact_json: false,
        abi_json: false,
        tvm_refresh_remote: false,
    }
}

#[test]
fn line_info_counts_each_line_with_its_terminator() {
    assert_eq!(compute_line_info(b"ab\ncde\n"), vec![3, 7]);
    assert_eq!(compute_line_info(b"ab\ncde"), vec![3, 6]);
    assert_eq!(compute_line_info(b"ab"), vec![2]);
    assert_eq!(compute_line_info(b"a\r\nb\r\n"), vec![3, 6]);
    assert_eq!(compute_line_info(b""), Vec::<usize>::new());
    assert_eq!(compute_line_info(b"\n\n"), vec![1, 2]);
}

#[test]
fn resolve_round_trips_every_offset() {
    let content = b"first\nsecond line\n\nlast";
    let ends = compute_line_info(content);
    for pos in 0..content.len() {
        let (line, column) = get_line_column(&ends, pos).unwrap();
        let previous = if line == 1 { 0 } else { ends[line - 2] };
        assert_eq!(previous + column - 1, pos);
        assert!(previous <= pos && pos < ends[line - 1]);
    }
}

#[test]
fn resolve_at_line_end_starts_the_next_line() {
    let ends = compute_line_info(b"abc\ndef\n");
    assert_eq!(ends, vec![4, 8]);
    assert_eq!(get_line_column(&ends, 4), Some((2, 1)));
    assert_eq!(get_line_column(&ends, 5), Some((2, 2)));
    assert_eq!(get_line_column(&ends, 3), Some((1, 4)));
    assert_eq!(get_line_column(&ends, 0), Some((1, 1)));
    assert_eq!(get_line_column(&ends, 8), None);
    let ends = compute_line_info(b"ab\ncd\n");
    assert_eq!(get_line_column(&ends, 3), Some((2, 1)));
}

#[test]
fn index_reports_unknown_files_and_positions() {
    let mut index = PositionIndex::new();
    assert_eq!(index.resolve(&s("f.sol"), 0), Err(PositionError::FileNotIndexed));
    index.record(s("f.sol"), b"ab\ncd\n");
    assert_eq!(index.resolve(&s("f.sol"), 4), Ok((2, 2)));
    assert_eq!(index.resolve(&s("f.sol"), 3), Ok((2, 1)));
    assert_eq!(index.resolve(&s("f.sol"), 6), Err(PositionError::PositionNotFound));
    index.record(s("f.sol"), b"abcdefgh\n");
    assert_eq!(index.resolve(&s("f.sol"), 4), Ok((1, 5)));
}

#[test]
fn offset_120_lands_on_line_5() {
    let line = [b'x'; 24];
    let mut content = vec![];
    for _ in 0..6 {
        content.extend_from_slice(&line);
        content.push(b'\n');
    }
    let mut index = PositionIndex::new();
    index.record(s("f"), &content);
    assert_eq!(index.resolve(&s("f"), 120), Ok((5, 21)));
}

#[test]
fn error_diagnostic_fails_after_all_are_read() {
    let res = response(
        Some(vec![diagnostic("error", "f", 120), diagnostic("warning", "f", 3)]),
        vec![("A", unit_with_assembly())],
    );
    let (diags, out) = parse_comp_result(&res, &s("/src/a.sol"), &None, true);
    assert_eq!(diags.len(), 2);
    assert_eq!(diags[0].severity, Severity::Error);
    assert_eq!(diags[0].start, 120);
    assert_eq!(diags[1].severity, Severity::Warning);
    assert!(matches!(out, Err(BuildError::CompilationFailed)));
    assert_eq!(out.unwrap_err().message(), "Compilation failed");
}

#[test]
fn error_diagnostic_is_anchored_at_its_line() {
    let mut content = vec![];
    for _ in 0..6 {
        content.extend_from_slice(&[b'x'; 24]);
        content.push(b'\n');
    }
    let mut index = PositionIndex::new();
    index.record(s("f"), &content);
    let (diags, _) = scan_diagnostics(&response(Some(vec![diagnostic("error", "f", 120)]), vec![]));
    let lines = render_diagnostic(&index, &diags[0]).unwrap();
    assert_eq!(lines[0].lead, " ");
    assert_eq!(lines[0].marker, "--> ");
    assert_eq!(lines[0].text, "Warning: something");
    assert_eq!(lines[2].marker, "5 |");
    assert_eq!(lines[2].text, " --> f.sol:5:21:");
    assert_eq!(lines.len(), 6);
}

#[test]
fn unresolvable_diagnostic_is_not_anchored() {
    let index = PositionIndex::new();
    let (diags, _) = scan_diagnostics(&response(Some(vec![diagnostic("warning", "g", 1)]), vec![]));
    assert!(render_diagnostic(&index, &diags[0]).is_none());
}

#[test]
fn unknown_severity_is_a_protocol_violation() {
    let res = response(
        Some(vec![diagnostic("warning", "f", 1), diagnostic("info", "f", 1)]),
        vec![("A", unit_with_assembly())],
    );
    let (diags, out) = scan_diagnostics(&res);
    assert_eq!(diags.len(), 1);
    assert!(matches!(out, Err(BuildError::UnknownSeverity)));
    assert!(matches!(parse_entry(&text("x")), Err(BuildError::ParseFailure)));
}

#[test]
fn malformed_response_is_a_parse_failure() {
    let (_, out) = parse_comp_result(&Json::Null, &s("/src/a.sol"), &None, true);
    assert_eq!(out.unwrap_err().message(), "Failed to parse compilation result");
    let res = response(None, vec![]);
    let (_, out) = parse_comp_result(&res, &s("/src/other.sol"), &None, true);
    assert!(matches!(out, Err(BuildError::ParseFailure)));
}

#[test]
fn single_deployable_unit_is_chosen() {
    let res = response(
        Some(vec![diagnostic("warning", "f", 1)]),
        vec![("Lib", unit_without_assembly()), ("A", unit_with_assembly())],
    );
    let (_, out) = parse_comp_result(&res, &s("/src/a.sol"), &None, true);
    let unit = out.unwrap();
    assert!(matches!(unit, Json::Object(f) if f.len() == 2));
}

#[test]
fn two_deployable_units_are_ambiguous() {
    let units = vec![(s("A"), unit_with_assembly()), (s("B"), unit_with_assembly())];
    let r = select_unit(&units, &None, true);
    let e = r.unwrap_err();
    assert!(matches!(e, BuildError::MultipleContracts(true)));
    assert_eq!(
        e.message(),
        "Source file contains at least two deployable contracts. Consider adding the option --contract in compiler command line to select the desired contract"
    );
}

#[test]
fn selection_is_the_same_when_repeated() {
    let units = vec![(s("L"), unit_without_assembly()), (s("A"), unit_with_assembly())];
    assert_eq!(select_unit(&units, &None, true).unwrap(), 1);
    assert_eq!(select_unit(&units, &None, true).unwrap(), 1);
}

#[test]
fn selection_without_compiling_counts_every_unit() {
    let units = vec![(s("L"), unit_without_assembly()), (s("A"), unit_with_assembly())];
    let e = select_unit(&units, &None, false).unwrap_err();
    assert_eq!(e.message(), "Source file contains at least two contracts. Consider adding the option --contract in compiler command line to select the desired contract");
    let one = vec![(s("L"), unit_without_assembly())];
    assert_eq!(select_unit(&one, &None, false).unwrap(), 0);
}

#[test]
fn no_deployable_unit_is_an_error() {
    let units = vec![(s("L"), unit_without_assembly())];
    let e = select_unit(&units, &None, true).unwrap_err();
    assert_eq!(e.message(), "Source file contains no deployable contracts");
    let e = select_unit(&vec![], &None, false).unwrap_err();
    assert_eq!(e.message(), "Source file contains no contracts");
}

#[test]
fn named_unit_is_chosen_or_missing() {
    let units = vec![(s("A"), unit_with_assembly()), (s("B"), unit_with_assembly())];
    assert_eq!(select_unit(&units, &Some(s("B")), true).unwrap(), 1);
    let e = select_unit(&units, &Some(s("C")), true).unwrap_err();
    assert_eq!(e.message(), "Source file doesn't contain the desired contract \"C\"");
}

#[test]
fn asts_of_every_source_are_collected_in_order() {
    let res = response(None, vec![]);
    let asts = collect_asts(&res).unwrap();
    assert_eq!(asts.len(), 2);
    assert!(matches!(asts[0], Json::Str(t) if t == "tree a"));
    assert!(matches!(asts[1], Json::Str(t) if t == "tree b"));
    let broken = obj(vec![("sources", obj(vec![("x", obj(vec![]))]))]);
    assert!(matches!(collect_asts(&broken), Err(BuildError::ParseFailure)));
}

#[test]
fn report_layout_follows_the_line_number_width() {
    assert_eq!(decimal_width(0), 1);
    assert_eq!(decimal_width(9), 1);
    assert_eq!(decimal_width(10), 2);
    assert_eq!(decimal_width(12345), 5);
    assert_eq!(decimal_text(0), "0");
    assert_eq!(decimal_text(907), "907");
    let lines = render_report(12, "head\nsecond\nthird\r\n");
    let flat: Vec<String> = lines
        .iter()
        .map(|l| format!("{}{}{}{}", l.lead, l.marker, l.gap, l.text))
        .collect();
    assert_eq!(flat, vec!["  --> head", "   |", "12 | second", "   | third", ""]);
    assert!(lines[2].highlighted && !lines[0].highlighted);
}

#[test]
fn lines_are_split_like_text_lines() {
    assert_eq!(split_lines("a\r\nb\n\nc"), vec!["a", "b", "", "c"]);
    assert_eq!(split_lines("a\n"), vec!["a"]);
    assert_eq!(split_lines(""), Vec::<String>::new());
}

#[test]
fn request_selects_outputs_by_mode() {
    let mut args = default_args();
    args.include_path = vec![s("/lib"), s("/more")];
    args.contract = Some(s("Main"));
    args.function_ids = true;
    let r = compile_request(&args, &s("/src/a.sol"));
    assert_eq!(
        r,
        "{\"language\": \"Solidity\", \"settings\": {\"includePaths\": [\"/lib\", \"/more\"], \"forceRemoteUpdate\": false, \"mainContract\": \"Main\", \"outputSelection\": {\"/src/a.sol\": {\"*\": [\"abi\", \"assembly\", \"showFunctionIds\"], \"\": [\"ast\"]}}}, \"sources\": {\"/src/a.sol\": {\"urls\": [\"/src/a.sol\"]}}}"
    );
    args.abi_json = true;
    args.function_ids = false;
    args.tvm_refresh_remote = true;
    let r = compile_request(&args, &s("x"));
    assert!(r.contains("\"*\": [\"abi\"]"));
    assert!(r.contains("\"forceRemoteUpdate\": true"));
    assert_eq!(include_paths_text(&vec![]), "");
}

#[test]
fn output_mode_and_keys_follow_the_options() {
    let mut args = default_args();
    assert_eq!(args.output_mode(), OutputMode::Full);
    assert!(args.compiles());
    args.ast_compact_json = true;
    assert_eq!(args.output_mode(), OutputMode::Ast { pretty: false });
    assert!(!args.compiles());
    args.function_ids = true;
    assert_eq!(args.output_mode(), OutputMode::FunctionIds);
    assert_eq!(args.output_dir_or_default(), ".");
    args.gen_key = Some(s("k"));
    args.set_key = Some(s("j"));
    assert!(matches!(args.key_action(), KeyAction::Generate(f) if f == "k"));
    args.gen_key = None;
    assert!(matches!(args.key_action(), KeyAction::Load(f) if f == "j"));
}

#[test]
fn output_names_and_prefix_check() {
    assert!(check_output_prefix(&s("contract")).is_ok());
    let e = check_output_prefix(&s("out/contract")).unwrap_err();
    assert_eq!(e.message(), "Invalid output prefix \"out/contract\". Use option -O to set output directory");
    let tvc = artifact_name(&s("P"), ".tvc");
    assert_eq!(tvc, "P.tvc");
    assert_eq!(output_file(&s("."), &tvc), "P.tvc");
    assert_eq!(output_file(&s("build"), &tvc), "build/P.tvc");
}
