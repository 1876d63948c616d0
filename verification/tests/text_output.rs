//! Decimal text, exchange-file output, the plugin's routing, the map
//! path builder, and the package text work.

use f5rail::agent::bve::{FsView, MapPath};
use f5rail::agent::jww::{Cache, Figure};
use f5rail::agent::sjis::{encode_lines, to_sjis};
use f5rail::decimal::{eq_rounded, format_scaled, parse_units, ParseOutcome};
use f5rail::fixed::SCALE;
use f5rail::jww::jww_temp::JwwTemp;
use f5rail::jww::{spiral_lines, Args as JwwArgs};
use f5rail::make::bat::{stamp_marker, BatFile};
use f5rail::make::dir::Dir;
use f5rail::transition::canvas::Point;
use f5rail::transition::curve::{Curvature, Diminish, Subtension, Tangential};
use f5rail::transition::distance::Distance;
use f5rail::transition::param::Param;
use f5rail::transition::plot;
use f5rail::{Outcome, Plugin};

const M: i64 = SCALE;

fn text_strings(v: &[&str]) -> Vec<String> {
    v.iter().map(|s| s.to_string()).collect()
}

#[test]
fn decimal_parse_cases() {
    assert_eq!(parse_units("3"), ParseOutcome::Value(3 * M));
    assert_eq!(parse_units("2.2"), ParseOutcome::Value(2 * M + 2 * M / 10));
    assert_eq!(parse_units("-123.4"), ParseOutcome::Value(-(123 * M + 4 * M / 10)));
    assert_eq!(parse_units("+0.5"), ParseOutcome::Value(M / 2));
    assert_eq!(parse_units(".5"), ParseOutcome::Value(M / 2));
    assert_eq!(parse_units("300."), ParseOutcome::Value(300 * M));
    assert_eq!(parse_units("0.00000000001"), ParseOutcome::Value(1));
    // digits beyond the fixed-point resolution are ignored
    assert_eq!(parse_units("0.000000000019"), ParseOutcome::Value(1));
    assert_eq!(parse_units("abc"), ParseOutcome::NotNumber);
    assert_eq!(parse_units(""), ParseOutcome::NotNumber);
    assert_eq!(parse_units("-"), ParseOutcome::NotNumber);
    assert_eq!(parse_units("."), ParseOutcome::NotNumber);
    assert_eq!(parse_units("1.5.2"), ParseOutcome::NotNumber);
    assert_eq!(parse_units("1e3"), ParseOutcome::NotNumber);
    assert_eq!(parse_units("99999999999"), ParseOutcome::TooLarge);
}

#[test]
fn decimal_format_cases() {
    assert_eq!(format_scaled(0), "0");
    assert_eq!(format_scaled(3 * M), "3");
    assert_eq!(format_scaled(M / 2), "0.5");
    assert_eq!(format_scaled(-(123 * M + 4 * M / 10)), "-123.4");
    assert_eq!(format_scaled(1), "0.00000000001");
    assert_eq!(format_scaled(246 * M + 8 * M / 10), "246.8");
}

#[test]
fn decimal_round_trip() {
    for v in [0, 1, -1, M, -M, 3 * M + 1, 300 * M, -(19 * M + M / 2)] {
        let shown = format_scaled(v);
        assert_eq!(parse_units(&shown), ParseOutcome::Value(v));
    }
}

#[test]
fn rounded_comparison() {
    assert!(eq_rounded(30_102_816_380_066, "301.03"));
    assert!(!eq_rounded(30_102_816_380_066, "301.02"));
    assert!(eq_rounded(-182_266_016_047_466, "-1823"));
    assert!(eq_rounded(50 * M, "50.0"));
    assert!(eq_rounded(0, "0"));
}

#[test]
fn straight_strokes_print_as_line_records() {
    let p = Param::new(
        Diminish::Linear,
        Curvature::straight(),
        Curvature::straight(),
        Distance(0),
        Subtension(2 * M),
        Point(0, 0),
        Tangential(0),
    );
    let spiral = plot(&p).unwrap();
    let lines = spiral_lines(&spiral);
    assert_eq!(lines, vec!["0 0 1 0".to_string(), "1 0 2 0".to_string()]);
}

#[test]
fn arcs_print_as_ci_records() {
    let args = JwwArgs(text_strings(&["/TRANSITION:1", "/R1:-123.4", "/TCL:1", "/TEMP:./JWC_TEMP.TXT"]));
    let plugin = Plugin::new(args);
    let outcome = plugin.routing().unwrap();
    let (path, lines) = plugin.show_result(Ok(outcome)).unwrap();
    assert_eq!(path, "./JWC_TEMP.TXT");
    assert_eq!(lines.len(), 2);
    assert!(lines[0].starts_with("ci "), "not an arc record: {}", lines[0]);
    let radius_field = lines[0].split(' ').nth(3).unwrap();
    match parse_units(radius_field) {
        ParseOutcome::Value(v) => assert!(eq_rounded(v, "246.80"), "radius {radius_field}"),
        other => panic!("radius field {radius_field} gave {other:?}"),
    }
    assert_eq!(lines[1], "h#サイン半波長逓減曲線を描画しました");
}

#[test]
fn faults_print_as_error_records() {
    let args = JwwArgs(text_strings(&["/TRANSITION:1", "/TEMP:./JWC_TEMP.TXT"]));
    let plugin = Plugin::new(args);
    let result = plugin.routing();
    assert!(result.is_err());
    let (_, lines) = plugin.show_result(result).unwrap();
    assert_eq!(lines, vec!["heTCLを指定してください".to_string()]);
}

#[test]
fn no_transition_argument_means_export() {
    let args = JwwArgs(text_strings(&["/TRACK:X", "/TEMP:./JWC_TEMP.TXT"]));
    let plugin = Plugin::new(args);
    assert!(matches!(plugin.routing().unwrap(), Outcome::Export));
}

#[test]
fn notice_head_line() {
    let mut temp = JwwTemp::new("./JWC_TEMP.TXT");
    assert!(temp.head_line().is_none());
    temp.notice("サイン半波長逓減");
    assert_eq!(temp.head_line().unwrap(), "h#サイン半波長逓減");
    assert_eq!(temp.path, "./JWC_TEMP.TXT");
}

#[test]
fn shift_jis_passthrough_for_ascii() {
    assert_eq!(to_sjis("ci 0 0 10").as_slice(), b"ci 0 0 10");
    assert_eq!(to_sjis("").as_slice(), b"");
}

#[test]
fn shift_jis_encodes_japanese() {
    // Shift-JIS for the katakana "sa" is 0x83 0x54
    let bytes = to_sjis("サ");
    assert_eq!(bytes, vec![0x83u8, 0x54u8]);
}

#[test]
fn encoded_file_lines_end_with_crlf() {
    let lines = text_strings(&["0 0 1 0", "h#x"]);
    let bytes = encode_lines(&lines);
    assert_eq!(bytes.as_slice(), b"0 0 1 0\r\nh#x\r\n");
}

#[test]
fn map_path_defaults_and_numbering() {
    let files = text_strings(&[
        "proj/a",
        "proj/b.txt",
        "proj/c.txt",
        "proj/c-1.txt",
        "proj/e/map.txt",
    ]);
    let dirs = text_strings(&["proj/d", "proj/e"]);
    let fs = FsView::new(files, dirs);
    let case = |given: &str, want: &str| {
        let got = MapPath::build(given, "proj", &fs);
        assert_eq!(got.as_str(), want, "given {given:?}");
    };
    case("", "proj/map.txt");
    case("a", "proj/a.txt");
    case("b", "proj/b-1.txt");
    case("c", "proj/c-2.txt");
    case("c-1", "proj/c-1-1.txt");
    case("d", "proj/d/map.txt");
    case("e", "proj/e/map-1.txt");
}

#[test]
fn absolute_map_path_is_kept() {
    let fs = FsView::new(vec![], vec![]);
    let got = MapPath::build("/out/file.txt", "proj", &fs);
    assert_eq!(got.as_str(), "/out/file.txt");
}

#[test]
fn version_marker_is_stamped() {
    assert_eq!(stamp_marker("echo (VERSION) here", "1.2.3"), "echo 1.2.3 here");
    assert_eq!(stamp_marker("(VERSION)(VERSION)", "v"), "vv");
    assert_eq!(stamp_marker("no marker", "v"), "no marker");
    let bat = BatFile::new("dir/tool.bat");
    assert_eq!(bat.path_str(), "dir/tool.bat");
    let bytes = bat.make("run (VERSION)\r\n", "9");
    assert_eq!(bytes.as_slice(), b"run 9\r\n");
}

#[test]
fn bat_paths_filters_by_extension() {
    let d = Dir::new("bat");
    assert_eq!(d.sub().path, "bat/sub");
    let root = text_strings(&["bat/a.bat", "bat/readme.txt", "bat/b.bat"]);
    let sub = text_strings(&["bat/sub/c.bat", "bat/sub/c.exe"]);
    let got = d.bat_paths(&root, &sub);
    assert_eq!(got, text_strings(&["bat/a.bat", "bat/b.bat", "bat/sub/c.bat"]));
}

#[test]
fn exchange_lines_read_back_as_figures() {
    let cache = Cache(text_strings(&[
        "file=proj/work.jww",
        "/トラック名:1",
        " 0 0 100 100",
        "ci 1 2 300 0 90 1 0",
        "ci 1 2 300 0 90 0.5 0",
        "BL x",
        "hp1",
    ]));
    assert_eq!(cache.track_name(), "1");
    assert_eq!(cache.project_dir().unwrap(), "proj");
    let figures = cache.figures().unwrap();
    assert_eq!(figures.len(), 4);
    assert_eq!(
        figures[0],
        Figure::Straight { x0: 0, y0: 0, x1: 100 * M, y1: 100 * M }
    );
    assert_eq!(
        figures[1],
        Figure::Arc { cx: M, cy: 2 * M, r: 300 * M, a0: 0, a1: 90 * M }
    );
    assert_eq!(figures[2], Figure::Ellipse);
    assert_eq!(figures[3], Figure::Block);
}

#[test]
fn unreadable_figures_are_faults() {
    let cache = Cache(text_strings(&[" 0 a 1 1"]));
    assert!(cache.figures().is_err());
    let no_path = Cache(text_strings(&["x"]));
    assert_eq!(
        no_path.project_dir().unwrap_err().message(),
        "JWC_TEMPファイルにパスが出力されていません"
    );
    let unsaved = Cache(text_strings(&["file="]));
    assert_eq!(
        unsaved.project_dir().unwrap_err().message(),
        "作業中のファイルに名前をつけて保存してください"
    );
}
