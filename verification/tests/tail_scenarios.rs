use tailr::quantity::{parse_quantity, Action};
use tailr::resolve::{resolve, Resolution};
use tailr::sources::{file_tail, header_line, run_output, NamedSource};
use tailr::tail::counts;

fn five_lines() -> Vec<u8> {
    b"one\ntwo\nthree\nfour\nfive\n".to_vec()
}

#[test]
fn test_counts_lines_and_bytes() {
    assert_eq!(counts(&five_lines()), (5, 24));
    assert_eq!(counts(&b"".to_vec()), (0, 0));
    assert_eq!(counts(&b"a\n".to_vec()), (1, 2));
    // A final line without a terminator still counts.
    assert_eq!(counts(&b"a\nbb\nccc".to_vec()), (3, 8));
    assert_eq!(counts(&b"\n\n".to_vec()), (2, 2));
}

#[test]
fn test_resolve_negative_counts_clamp_to_start() {
    // skip == max(0, total + count)
    assert_eq!(resolve(Action::From(-3), 10), Resolution::Skip(7));
    assert_eq!(resolve(Action::From(-10), 10), Resolution::Skip(0));
    assert_eq!(resolve(Action::From(-20), 10), Resolution::Skip(0));
    assert_eq!(resolve(Action::From(-1), 0), Resolution::Skip(0));
}

#[test]
fn test_resolve_positive_counts_clamp_to_nothing() {
    // count > total means nothing to print; otherwise skip == count - 1
    assert_eq!(resolve(Action::From(11), 10), Resolution::Nothing);
    assert_eq!(resolve(Action::From(10), 10), Resolution::Skip(9));
    assert_eq!(resolve(Action::From(1), 10), Resolution::Skip(0));
    assert_eq!(resolve(Action::From(1), 0), Resolution::Nothing);
}

#[test]
fn test_resolve_zero_and_everything() {
    assert_eq!(resolve(Action::From(0), 10), Resolution::Nothing);
    assert_eq!(resolve(Action::Everything, 10), Resolution::All);
    assert_eq!(resolve(Action::Everything, 0), Resolution::All);
}

#[test]
fn test_emitter_idempotent() {
    let data = five_lines();
    let directive = parse_quantity("3".to_string()).unwrap();
    let first = file_tail(&data, directive, false);
    let second = file_tail(&data, directive, false);
    assert_eq!(first, second);
    let first_bytes = file_tail(&data, Action::From(-7), true);
    let second_bytes = file_tail(&data, Action::From(-7), true);
    assert_eq!(first_bytes, second_bytes);
}

#[test]
fn test_scenario_last_two_lines() {
    let directive = parse_quantity("2".to_string()).unwrap();
    assert_eq!(directive, Action::From(-2));
    let out = file_tail(&five_lines(), directive, false);
    assert_eq!(out, b"four\nfive\n".to_vec());
}

#[test]
fn test_scenario_from_third_line() {
    let directive = parse_quantity("+3".to_string()).unwrap();
    let out = file_tail(&five_lines(), directive, false);
    assert_eq!(out, b"three\nfour\nfive\n".to_vec());
}

#[test]
fn test_scenario_start_beyond_end() {
    let directive = parse_quantity("+10".to_string()).unwrap();
    let out = file_tail(&five_lines(), directive, false);
    assert_eq!(out, b"".to_vec());
}

#[test]
fn test_scenario_plus_zero_emits_all() {
    let directive = parse_quantity("+0".to_string()).unwrap();
    let out = file_tail(&five_lines(), directive, false);
    assert_eq!(out, five_lines());
}

#[test]
fn test_scenario_two_files_with_headers() {
    let sources = vec![
        NamedSource { name: b"file1".to_vec(), data: b"a\nb\n".to_vec() },
        NamedSource { name: b"file2".to_vec(), data: b"c\nd\n".to_vec() },
    ];
    let directive = parse_quantity("10".to_string()).unwrap();
    let out = run_output(&sources, directive, false, false);
    assert_eq!(
        out,
        b"==> file1 <==\na\nb\n\n==> file2 <==\nc\nd\n".to_vec()
    );
}

#[test]
fn test_scenario_byte_mode_last_five() {
    let data = b"0123456789abcdefghij".to_vec();
    assert_eq!(data.len(), 20);
    let directive = parse_quantity("-5".to_string()).unwrap();
    let out = file_tail(&data, directive, true);
    assert_eq!(out, b"fghij".to_vec());
}

#[test]
fn test_byte_mode_handles_arbitrary_bytes() {
    // Binary content passes through verbatim.
    let data = vec![0u8, 255, 10, 254, 7];
    let out = file_tail(&data, Action::From(-2), true);
    assert_eq!(out, vec![254, 7]);
    let from_start = file_tail(&data, Action::From(2), true);
    assert_eq!(from_start, vec![255, 10, 254, 7]);
}

#[test]
fn test_single_source_has_no_header() {
    let sources = vec![NamedSource { name: b"only".to_vec(), data: b"x\ny\n".to_vec() }];
    let out = run_output(&sources, Action::From(-1), false, false);
    assert_eq!(out, b"y\n".to_vec());
}

#[test]
fn test_quiet_suppresses_headers() {
    let sources = vec![
        NamedSource { name: b"file1".to_vec(), data: b"a\nb\n".to_vec() },
        NamedSource { name: b"file2".to_vec(), data: b"c\nd\n".to_vec() },
    ];
    let out = run_output(&sources, Action::Everything, false, true);
    assert_eq!(out, b"a\nb\nc\nd\n".to_vec());
}

#[test]
fn test_three_files_with_headers() {
    let sources = vec![
        NamedSource { name: b"a.txt".to_vec(), data: b"1\n".to_vec() },
        NamedSource { name: b"b.txt".to_vec(), data: b"2\n".to_vec() },
        NamedSource { name: b"c.txt".to_vec(), data: b"3\n".to_vec() },
    ];
    let out = run_output(&sources, Action::Everything, false, false);
    assert_eq!(
        out,
        b"==> a.txt <==\n1\n\n==> b.txt <==\n2\n\n==> c.txt <==\n3\n".to_vec()
    );
}

#[test]
fn test_zero_count_emits_nothing_per_source() {
    let out = file_tail(&five_lines(), Action::From(0), false);
    assert_eq!(out, b"".to_vec());
    let out = file_tail(&five_lines(), Action::From(0), true);
    assert_eq!(out, b"".to_vec());
}

#[test]
fn test_header_line_shapes() {
    assert_eq!(header_line(&b"f".to_vec(), true), b"==> f <==\n".to_vec());
    assert_eq!(header_line(&b"f".to_vec(), false), b"\n==> f <==\n".to_vec());
}

#[test]
fn test_empty_file_emits_nothing() {
    let empty: Vec<u8> = Vec::new();
    assert_eq!(file_tail(&empty, Action::From(-10), false), b"".to_vec());
    assert_eq!(file_tail(&empty, Action::Everything, false), b"".to_vec());
    assert_eq!(file_tail(&empty, Action::From(1), true), b"".to_vec());
}

#[test]
fn test_unterminated_last_line() {
    let data = b"one\ntwo\nthree".to_vec();
    assert_eq!(file_tail(&data, Action::From(-1), false), b"three".to_vec());
    assert_eq!(file_tail(&data, Action::From(-2), false), b"two\nthree".to_vec());
}
