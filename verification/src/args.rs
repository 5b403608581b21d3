//! The command line.

use vstd::prelude::*;

use crate::text::{blank, is_blank, text_is};

verus! {

/// What the program was asked to do.
#[derive(Debug)]
pub struct Options {
    pub inputs: Vec<String>,
    pub output: Option<String>,
    pub called_from_python: bool,
    pub instructions: Option<String>,
    pub save_dir: Option<String>,
    pub single_image: bool,
}

/// What comes of the command line.
#[derive(Debug)]
pub enum Outcome {
    /// Help was asked for.
    Help,
    /// The command line is wrong, for the given reason.
    Wrong(String),
    Run(Options),
}

/// A command line that was read.
#[derive(Debug)]
pub struct ParsedArgs {
    /// The mask files that were named before the outcome was clear. Each is read,
    /// in this order, and the last one counts.
    pub masks: Vec<String>,
    pub outcome: Outcome,
}

/// [`Options`] as mathematics sees them.
#[verifier::ext_equal]
pub ghost struct OptionsView {
    pub inputs: Seq<Seq<char>>,
    pub output: Option<Seq<char>>,
    pub called_from_python: bool,
    pub instructions: Option<Seq<char>>,
    pub save_dir: Option<Seq<char>>,
    pub single_image: bool,
}

/// [`Outcome`] as mathematics sees it.
#[verifier::ext_equal]
pub ghost enum OutcomeView {
    Help,
    Wrong(Seq<char>),
    Run(OptionsView),
}

/// [`ParsedArgs`] as mathematics sees them.
#[verifier::ext_equal]
pub ghost struct ParsedView {
    pub masks: Seq<Seq<char>>,
    pub outcome: OutcomeView,
}

/// The texts of a sequence.
pub open spec fn texts(v: Seq<String>) -> Seq<Seq<char>> {
    v.map_values(|s: String| s@)
}

/// The text, if there is one.
pub open spec fn text_of(s: Option<String>) -> Option<Seq<char>> {
    match s {
        Some(s) => Some(s@),
        None => None,
    }
}

impl View for Options {
    type V = OptionsView;

    open spec fn view(&self) -> OptionsView {
        OptionsView {
            inputs: texts(self.inputs@),
            output: text_of(self.output),
            called_from_python: self.called_from_python,
            instructions: text_of(self.instructions),
            save_dir: text_of(self.save_dir),
            single_image: self.single_image,
        }
    }
}

impl View for ParsedArgs {
    type V = ParsedView;

    open spec fn view(&self) -> ParsedView {
        ParsedView {
            masks: texts(self.masks@),
            outcome: match self.outcome {
                Outcome::Help => OutcomeView::Help,
                Outcome::Wrong(text) => OutcomeView::Wrong(text@),
                Outcome::Run(options) => OutcomeView::Run(options@),
            },
        }
    }
}

/// What an argument is.
#[derive(Clone, Copy, PartialEq, Eq, Structural, Debug)]
pub enum Word {
    Help,
    Output,
    CalledFromPython,
    SaveDir,
    SingleImage,
    Instructions,
    Mask,
    /// It begins like an option, but is none.
    Unknown,
    Input,
}

/// What an argument is.
pub open spec fn word_spec(arg: Seq<char>) -> Word {
    if arg == "-h"@ || arg == "--help"@ {
        Word::Help
    } else if arg == "-o"@ || arg == "--output"@ {
        Word::Output
    } else if arg == "--called-from-python"@ || arg == "--called_from_python"@ {
        Word::CalledFromPython
    } else if arg == "--save-dir"@ || arg == "--save_dir"@ {
        Word::SaveDir
    } else if arg == "--single-image"@ || arg == "--single_image"@ {
        Word::SingleImage
    } else if arg == "--instructions"@ {
        Word::Instructions
    } else if arg == "--mask"@ {
        Word::Mask
    } else if arg.len() > 0 && arg[0] == '-' {
        Word::Unknown
    } else {
        Word::Input
    }
}

/// What an argument is.
pub fn word(arg: &String) -> (r: Word)
    ensures
        r == word_spec(arg@),
{
    if text_is(arg, "-h") || text_is(arg, "--help") {
        Word::Help
    } else if text_is(arg, "-o") || text_is(arg, "--output") {
        Word::Output
    } else if text_is(arg, "--called-from-python") || text_is(arg, "--called_from_python") {
        Word::CalledFromPython
    } else if text_is(arg, "--save-dir") || text_is(arg, "--save_dir") {
        Word::SaveDir
    } else if text_is(arg, "--single-image") || text_is(arg, "--single_image") {
        Word::SingleImage
    } else if text_is(arg, "--instructions") {
        Word::Instructions
    } else if text_is(arg, "--mask") {
        Word::Mask
    } else if arg.as_str().unicode_len() > 0 && arg.as_str().get_char(0) == '-' {
        Word::Unknown
    } else {
        Word::Input
    }
}

/// The option takes the argument that follows it.
pub open spec fn takes_value(word: Word) -> bool {
    word is Output || word is SaveDir || word is Instructions || word is Mask
}

/// What is said if an option lacks its argument.
pub open spec fn missing_text(word: Word) -> Seq<char> {
    match word {
        Word::Output => "--output requires a path"@,
        Word::SaveDir => "--save-dir requires a path"@,
        Word::Instructions => "--instructions requires a text argument"@,
        _ => "--mask requires a path"@,
    }
}

/// The options before any argument.
pub open spec fn no_options() -> OptionsView {
    OptionsView {
        inputs: Seq::empty(),
        output: None,
        called_from_python: false,
        instructions: None,
        save_dir: None,
        single_image: false,
    }
}

/// The outcome once all arguments are read.
pub open spec fn settled(o: OptionsView) -> OutcomeView {
    if o.called_from_python && o.output is None {
        OutcomeView::Wrong(
            "--called-from-python requires --output <PATH> (where the mask is returned)"@,
        )
    } else {
        OutcomeView::Run(
            OptionsView {
                instructions: match o.instructions {
                    Some(text) => if blank(text) {
                        None
                    } else {
                        Some(text)
                    },
                    None => None,
                },
                ..o
            },
        )
    }
}

/// The options after an option with its argument.
pub open spec fn with_value(o: OptionsView, word: Word, value: Seq<char>) -> OptionsView {
    match word {
        Word::Output => OptionsView { output: Some(value), ..o },
        Word::SaveDir => OptionsView { save_dir: Some(value), ..o },
        Word::Instructions => OptionsView { instructions: Some(value), ..o },
        _ => o,
    }
}

/// What comes of the arguments from the `i`-th on, after the options `o` and the
/// mask files `masks`.
pub open spec fn parsed(
    args: Seq<Seq<char>>,
    i: int,
    o: OptionsView,
    masks: Seq<Seq<char>>,
) -> ParsedView
    decreases args.len() - i,
{
    if i < 0 || i >= args.len() {
        ParsedView { masks, outcome: settled(o) }
    } else {
        let w = word_spec(args[i]);
        if w is Help {
            ParsedView { masks, outcome: OutcomeView::Help }
        } else if w is Unknown {
            ParsedView { masks, outcome: OutcomeView::Wrong("Unknown option: "@ + args[i]) }
        } else if w is CalledFromPython {
            parsed(args, i + 1, OptionsView { called_from_python: true, ..o }, masks)
        } else if w is SingleImage {
            parsed(args, i + 1, OptionsView { single_image: true, ..o }, masks)
        } else if w is Input {
            parsed(args, i + 1, OptionsView { inputs: o.inputs.push(args[i]), ..o }, masks)
        } else if i + 1 >= args.len() {
            ParsedView { masks, outcome: OutcomeView::Wrong(missing_text(w)) }
        } else {
            parsed(
                args,
                i + 2,
                with_value(o, w, args[i + 1]),
                if w is Mask {
                    masks.push(args[i + 1])
                } else {
                    masks
                },
            )
        }
    }
}

/// The outcome once all arguments are read.
fn settle(o: Options) -> (r: Outcome)
    ensures
        match r {
            Outcome::Help => false,
            Outcome::Wrong(text) => settled(o@) == OutcomeView::Wrong(text@),
            Outcome::Run(options) => settled(o@) == OutcomeView::Run(options@),
        },
{
    if o.called_from_python && o.output.is_none() {
        return Outcome::Wrong(
            "--called-from-python requires --output <PATH> (where the mask is returned)".to_owned(),
        );
    }
    let ghost before = o@;
    let drop = match &o.instructions {
        Some(text) => is_blank(text),
        None => false,
    };
    let mut options = o;
    if drop {
        options.instructions = None;
    }
    assert(options@ =~= settled(before)->Run_0);
    Outcome::Run(options)
}

/// Reads the command line, without the name of the program.
pub fn parse_args(args: &Vec<String>) -> (r: ParsedArgs)
    ensures
        r@ == parsed(texts(args@), 0, no_options(), Seq::empty()),
{
    let ghost all = texts(args@);
    let mut masks: Vec<String> = Vec::new();
    let mut o = Options {
        inputs: Vec::new(),
        output: None,
        called_from_python: false,
        instructions: None,
        save_dir: None,
        single_image: false,
    };
    assert(o@ =~= no_options());
    assert(texts(masks@) =~= Seq::empty());
    let mut i: usize = 0;
    while i < args.len()
        invariant
            all == texts(args@),
            i <= args@.len(),
            parsed(all, 0, no_options(), Seq::empty()) == parsed(
                all,
                i as int,
                o@,
                texts(masks@),
            ),
        decreases args@.len() - i,
    {
        let arg = &args[i];
        let w = word(arg);
        assert(all[i as int] == arg@);
        let ghost before = o@;
        match w {
            Word::Help => {
                return ParsedArgs { masks, outcome: Outcome::Help };
            },
            Word::Unknown => {
                let mut text = "Unknown option: ".to_owned();
                text.append(arg.as_str());
                return ParsedArgs { masks, outcome: Outcome::Wrong(text) };
            },
            Word::CalledFromPython => {
                o.called_from_python = true;
                assert(o@ =~= (OptionsView { called_from_python: true, ..before }));
            },
            Word::SingleImage => {
                o.single_image = true;
                assert(o@ =~= (OptionsView { single_image: true, ..before }));
            },
            Word::Input => {
                o.inputs.push(arg.as_str().to_owned());
                assert(o@ =~= (OptionsView { inputs: before.inputs.push(arg@), ..before }));
            },
            Word::Output | Word::SaveDir | Word::Instructions | Word::Mask => {
                if i + 1 >= args.len() {
                    let text = match w {
                        Word::Output => "--output requires a path",
                        Word::SaveDir => "--save-dir requires a path",
                        Word::Instructions => "--instructions requires a text argument",
                        _ => "--mask requires a path",
                    };
                    return ParsedArgs { masks, outcome: Outcome::Wrong(text.to_owned()) };
                }
                i = i + 1;
                let value = args[i].as_str().to_owned();
                assert(all[i as int] == value@);
                let ghost had = texts(masks@);
                match w {
                    Word::Output => {
                        o.output = Some(value);
                    },
                    Word::SaveDir => {
                        o.save_dir = Some(value);
                    },
                    Word::Instructions => {
                        o.instructions = Some(value);
                    },
                    _ => {
                        masks.push(value);
                        assert(texts(masks@) =~= had.push(value@));
                    },
                }
                assert(o@ =~= with_value(before, w, value@));
            },
        }
        i = i + 1;
    }
    ParsedArgs { masks, outcome: settle(o) }
}

/// A program that runs for another application has a place for the mask, what it
/// tells the user is not blank, and no input looks like an option.
pub proof fn a_run_is_sound(args: Seq<Seq<char>>, i: int, o: OptionsView, masks: Seq<Seq<char>>)
    requires
        forall|k: int| 0 <= k < o.inputs.len() ==> word_spec(#[trigger] o.inputs[k]) is Input,
    ensures
        parsed(args, i, o, masks).outcome matches OutcomeView::Run(run) ==> {
            &&& run.called_from_python ==> run.output is Some
            &&& run.instructions matches Some(text) ==> !blank(text)
            &&& forall|k: int|
                0 <= k < run.inputs.len() ==> word_spec(#[trigger] run.inputs[k]) is Input
        },
    decreases args.len() - i,
{
    if 0 <= i < args.len() {
        let w = word_spec(args[i]);
        if w is CalledFromPython {
            a_run_is_sound(args, i + 1, OptionsView { called_from_python: true, ..o }, masks);
        } else if w is SingleImage {
            a_run_is_sound(args, i + 1, OptionsView { single_image: true, ..o }, masks);
        } else if w is Input {
            a_run_is_sound(
                args,
                i + 1,
                OptionsView { inputs: o.inputs.push(args[i]), ..o },
                masks,
            );
        } else if takes_value(w) && i + 1 < args.len() {
            a_run_is_sound(
                args,
                i + 2,
                with_value(o, w, args[i + 1]),
                if w is Mask {
                    masks.push(args[i + 1])
                } else {
                    masks
                },
            );
        }
    }
}

/// Arguments that do not begin like an option are all inputs, in their order.
pub proof fn plain_arguments_are_inputs(
    args: Seq<Seq<char>>,
    i: int,
    o: OptionsView,
    masks: Seq<Seq<char>>,
)
    requires
        0 <= i <= args.len(),
        forall|k: int| i <= k < args.len() ==> word_spec(#[trigger] args[k]) is Input,
    ensures
        parsed(args, i, o, masks) == (ParsedView {
            masks,
            outcome: settled(OptionsView { inputs: o.inputs + args.skip(i), ..o }),
        }),
    decreases args.len() - i,
{
    if i < args.len() {
        let next = OptionsView { inputs: o.inputs.push(args[i]), ..o };
        plain_arguments_are_inputs(args, i + 1, next, masks);
        assert(next.inputs + args.skip(i + 1) =~= o.inputs + args.skip(i));
    } else {
        assert(o.inputs + args.skip(i) =~= o.inputs);
    }
}

} // verus!
