//! The command line, and the names of files.

use roi_selector::args::{parse_args, Options, Outcome, ParsedArgs};
use roi_selector::integrate::Integration;
use roi_selector::paths::{comes_before, ext_of, sort_paths, PathPart, SourcePath};
use roi_selector::roi::Tool;
use roi_selector::text::decimal_text;

fn parse(args: &[&str]) -> ParsedArgs {
    parse_args(&args.iter().map(|a| (*a).to_owned()).collect())
}

fn run(args: &[&str]) -> Options {
    match parse(args).outcome {
        Outcome::Run(options) => options,
        other => panic!("{:?}", other),
    }
}

fn wrong(args: &[&str]) -> String {
    match parse(args).outcome {
        Outcome::Wrong(text) => text,
        other => panic!("{:?}", other),
    }
}

fn path(index: usize, parts: &[(u8, &str)]) -> SourcePath {
    SourcePath {
        index,
        shown: String::new(),
        file_name: None,
        extension: None,
        parts: parts
            .iter()
            .map(|(rank, name)| PathPart { rank: *rank, name: name.as_bytes().to_vec() })
            .collect(),
    }
}

#[test]
fn no_arguments_run() {
    let o = run(&[]);
    assert!(o.inputs.is_empty() && o.output.is_none() && !o.called_from_python && !o.single_image);
    assert!(o.instructions.is_none() && o.save_dir.is_none());
}

#[test]
fn all_options_are_read() {
    let p = parse(&[
        "a.tif",
        "-o",
        "mask.tif",
        "--called-from-python",
        "--instructions",
        "Pick the sample",
        "--mask",
        "old.npy",
        "--save-dir",
        "/data",
        "--single-image",
        "b.tif",
    ]);
    assert_eq!(p.masks, vec!["old.npy".to_owned()]);
    match p.outcome {
        Outcome::Run(o) => {
            assert_eq!(o.inputs, vec!["a.tif".to_owned(), "b.tif".to_owned()]);
            assert_eq!(o.output, Some("mask.tif".to_owned()));
            assert!(o.called_from_python && o.single_image);
            assert_eq!(o.instructions, Some("Pick the sample".to_owned()));
            assert_eq!(o.save_dir, Some("/data".to_owned()));
        }
        _ => panic!("not run"),
    }
}

#[test]
fn options_have_other_spellings() {
    let o = run(&["--output", "m.npy", "--called_from_python", "--save_dir", "d", "--single_image"]);
    assert_eq!((o.output, o.save_dir), (Some("m.npy".to_owned()), Some("d".to_owned())));
    assert!(o.called_from_python && o.single_image);
}

#[test]
fn the_last_value_counts() {
    let o = run(&["-o", "a.tif", "--output", "b.tif"]);
    assert_eq!(o.output, Some("b.tif".to_owned()));
}

#[test]
fn an_option_takes_what_follows() {
    let o = run(&["-o", "--single-image"]);
    assert_eq!(o.output, Some("--single-image".to_owned()));
    assert!(!o.single_image);
}

#[test]
fn help_is_given() {
    assert!(matches!(parse(&["a.tif", "-h", "--nonsense"]).outcome, Outcome::Help));
    assert!(matches!(parse(&["--help"]).outcome, Outcome::Help));
}

#[test]
fn wrong_command_lines_are_explained() {
    assert_eq!(wrong(&["--nonsense"]), "Unknown option: --nonsense");
    assert_eq!(wrong(&["-"]), "Unknown option: -");
    assert_eq!(wrong(&["a", "-o"]), "--output requires a path");
    assert_eq!(wrong(&["--save-dir"]), "--save-dir requires a path");
    assert_eq!(wrong(&["--instructions"]), "--instructions requires a text argument");
    assert_eq!(wrong(&["--mask"]), "--mask requires a path");
    assert_eq!(
        wrong(&["a.tif", "--called-from-python"]),
        "--called-from-python requires --output <PATH> (where the mask is returned)"
    );
}

#[test]
fn masks_before_a_mistake_are_known() {
    let p = parse(&["--mask", "a.tif", "--mask", "b.tif", "--nonsense", "--mask", "c.tif"]);
    assert_eq!(p.masks, vec!["a.tif".to_owned(), "b.tif".to_owned()]);
    assert!(matches!(p.outcome, Outcome::Wrong(_)));
}

#[test]
fn blank_instructions_are_dropped() {
    assert_eq!(run(&["--instructions", " \t\n\u{a0}\u{3000}"]).instructions, None);
    assert_eq!(run(&["--instructions", ""]).instructions, None);
    assert_eq!(run(&["--instructions", " a "]).instructions, Some(" a ".to_owned()));
}

#[test]
fn an_empty_argument_is_an_input() {
    assert_eq!(run(&[""]).inputs, vec!["".to_owned()]);
}

#[test]
fn paths_are_ordered_by_components() {
    let dir_file = path(0, &[(4, "a"), (4, "z")]);
    let longer = path(1, &[(4, "a.b")]);
    let dir = path(2, &[(4, "a")]);
    let root = path(3, &[(1, "/"), (4, "z")]);
    assert!(comes_before(&dir, &dir_file) && comes_before(&dir_file, &longer));
    assert!(comes_before(&root, &dir) && !comes_before(&dir, &dir));
    let order: Vec<usize> = sort_paths(vec![dir_file, longer, dir, root]).iter().map(|p| p.index).collect();
    assert_eq!(order, vec![3, 2, 0, 1]);
}

#[test]
fn equal_paths_keep_their_order() {
    let order: Vec<usize> = sort_paths(vec![path(0, &[(4, "b")]), path(1, &[(4, "a")]), path(2, &[(4, "a")])])
        .iter()
        .map(|p| p.index)
        .collect();
    assert_eq!(order, vec![1, 2, 0]);
}

#[test]
fn extensions_are_in_lower_case() {
    let mut p = path(0, &[]);
    assert_eq!(ext_of(&p), "");
    p.extension = Some("TiFF".to_owned());
    assert_eq!(ext_of(&p), "tiff");
}

#[test]
fn numbers_are_written_in_decimal() {
    assert_eq!(decimal_text(0), "0");
    assert_eq!(decimal_text(907), "907");
    assert_eq!(decimal_text(u64::MAX), "18446744073709551615");
}

#[test]
fn names_are_shown() {
    let names: Vec<&str> = Integration::ALL.iter().map(|m| m.label()).collect();
    assert_eq!(names, vec!["Sum", "Mean", "Max"]);
    assert_eq!(Tool::Rectangle.label(), "Rectangle");
    assert_eq!(Tool::Ellipse.label(), "Ellipse");
    assert_eq!(Tool::Circle.label(), "Circle");
}
