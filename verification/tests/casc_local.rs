use asset_resolver::casc_local::{count_outcomes, extension_from_listfile_path, file_name_for_fdid, parse_args};
use asset_resolver::text::parse_u32;

#[test]
fn resolves_extension_from_listfile_path_case_insensitively() {
    assert_eq!(
        extension_from_listfile_path("World/Maps/Test/Tile_1_2.ADT"),
        Some("ADT")
    );
}

#[test]
fn resolves_extension_from_multi_dot_listfile_path() {
    assert_eq!(
        extension_from_listfile_path("spells/test.texture.BLP"),
        Some("BLP")
    );
}

#[test]
fn extension_is_absent_without_a_dot_and_empty_after_a_trailing_dot() {
    assert_eq!(extension_from_listfile_path("interface/icons/noextension"), None);
    assert_eq!(extension_from_listfile_path("folder.d/file."), Some(""));
    assert_eq!(extension_from_listfile_path(""), None);
}

fn strings(args: &[&str]) -> Vec<String> {
    args.iter().map(|a| a.to_string()).collect()
}

#[test]
fn parse_args_reads_fdids_and_output_dir() {
    let (fdids, out) = parse_args(&strings(&["123", "-o", "/tmp/out", "456", "junk", "+7"]));
    assert_eq!(fdids, vec![123, 456, 7]);
    assert_eq!(out, "/tmp/out");
}

#[test]
fn parse_args_defaults_output_dir_and_skips_a_dangling_flag() {
    let (fdids, out) = parse_args(&strings(&["42", "-o"]));
    assert_eq!(fdids, vec![42]);
    assert_eq!(out, ".");
    let (fdids, out) = parse_args(&strings(&[]));
    assert!(fdids.is_empty());
    assert_eq!(out, ".");
}

#[test]
fn parse_args_last_output_dir_wins_and_flag_value_is_not_an_fdid() {
    let (fdids, out) = parse_args(&strings(&["-o", "1", "-o", "b", "2"]));
    assert_eq!(fdids, vec![2]);
    assert_eq!(out, "b");
}

#[test]
fn parse_u32_follows_std_grammar() {
    for s in ["0", "42", "+42", "007", "4294967295", "4294967296", "", "+", "-", "-1", " 1", "1 ", "1a", "++1"] {
        assert_eq!(parse_u32(s), s.parse::<u32>().ok(), "input {s:?}");
    }
}

#[test]
fn decimal_form_matches_to_string_and_parses_back() {
    for n in [0u32, 7, 10, 99, 120191, 4294967295] {
        let name = file_name_for_fdid(n, None);
        let text = name.strip_suffix(".dat").expect("fallback extension");
        assert_eq!(text, n.to_string());
        assert_eq!(parse_u32(text), Some(n));
    }
}

#[test]
fn file_name_uses_listfile_extension_or_dat() {
    assert_eq!(file_name_for_fdid(120191, Some("World/Maps/Test/Tile_1_2.ADT")), "120191.ADT");
    assert_eq!(file_name_for_fdid(5, Some("no/extension")), "5.dat");
    assert_eq!(file_name_for_fdid(0, None), "0.dat");
}

#[test]
fn count_outcomes_tallies_successes_and_failures() {
    assert_eq!(count_outcomes(&vec![true, false, true, true]), (3, 1));
    assert_eq!(count_outcomes(&vec![]), (0, 0));
}
