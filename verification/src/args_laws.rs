//! What each argument of the command line adds to what is asked for.

use vstd::prelude::*;

use crate::args::{
    no_options, parsed, settled, with_value, word_spec, OptionsView, OutcomeView, ParsedView,
};
use crate::text::blank;

verus! {

/// What comes of a command line.
pub open spec fn outcome_of(args: Seq<Seq<char>>) -> ParsedView {
    parsed(args, 0, no_options(), Seq::empty())
}

/// What has been read when all arguments from the `i`-th on are, if nothing stops it.
spec fn gathered(
    args: Seq<Seq<char>>,
    i: int,
    o: OptionsView,
    masks: Seq<Seq<char>>,
) -> Option<(OptionsView, Seq<Seq<char>>)>
    decreases args.len() - i,
{
    if i < 0 || i >= args.len() {
        Some((o, masks))
    } else {
        let w = word_spec(args[i]);
        if w is Help || w is Unknown {
            None
        } else if w is CalledFromPython {
            gathered(args, i + 1, OptionsView { called_from_python: true, ..o }, masks)
        } else if w is SingleImage {
            gathered(args, i + 1, OptionsView { single_image: true, ..o }, masks)
        } else if w is Input {
            gathered(args, i + 1, OptionsView { inputs: o.inputs.push(args[i]), ..o }, masks)
        } else if i + 1 >= args.len() {
            None
        } else {
            gathered(
                args,
                i + 2,
                with_value(o, w, args[i + 1]),
                if w is Mask {
                    masks.push(args[i + 1])
                } else {
                    masks
                },
            )
        }
    }
}

/// Reading further arguments goes on from what has been read.
proof fn lemma_goes_on(
    args: Seq<Seq<char>>,
    more: Seq<Seq<char>>,
    i: int,
    o: OptionsView,
    masks: Seq<Seq<char>>,
)
    requires
        0 <= i <= args.len(),
    ensures
        match gathered(args, i, o, masks) {
            Some((p, m)) => {
                &&& parsed(args, i, o, masks) == (ParsedView { masks: m, outcome: settled(p) })
                &&& parsed(args + more, i, o, masks) == parsed(
                    args + more,
                    args.len() as int,
                    p,
                    m,
                )
            },
            None => parsed(args, i, o, masks).outcome !is Run,
        },
    decreases args.len() - i,
{
    if i < args.len() {
        let all = args + more;
        assert(all[i] == args[i]);
        let w = word_spec(args[i]);
        if w is Help || w is Unknown {
        } else if w is CalledFromPython {
            lemma_goes_on(args, more, i + 1, OptionsView { called_from_python: true, ..o }, masks);
        } else if w is SingleImage {
            lemma_goes_on(args, more, i + 1, OptionsView { single_image: true, ..o }, masks);
        } else if w is Input {
            lemma_goes_on(
                args,
                more,
                i + 1,
                OptionsView { inputs: o.inputs.push(args[i]), ..o },
                masks,
            );
        } else if i + 1 < args.len() {
            assert(all[i + 1] == args[i + 1]);
            lemma_goes_on(
                args,
                more,
                i + 2,
                with_value(o, w, args[i + 1]),
                if w is Mask {
                    masks.push(args[i + 1])
                } else {
                    masks
                },
            );
        }
    }
}

/// The words of the command line are told from each other.
proof fn lemma_words()
    ensures
        word_spec("-h"@) is Help,
        word_spec("--help"@) is Help,
        word_spec("-o"@) is Output,
        word_spec("--output"@) is Output,
        word_spec("--called-from-python"@) is CalledFromPython,
        word_spec("--called_from_python"@) is CalledFromPython,
        word_spec("--save-dir"@) is SaveDir,
        word_spec("--save_dir"@) is SaveDir,
        word_spec("--single-image"@) is SingleImage,
        word_spec("--single_image"@) is SingleImage,
        word_spec("--instructions"@) is Instructions,
        word_spec("--mask"@) is Mask,
{
    reveal_strlit("-h");
    reveal_strlit("--help");
    reveal_strlit("-o");
    reveal_strlit("--output");
    reveal_strlit("--called-from-python");
    reveal_strlit("--called_from_python");
    reveal_strlit("--save-dir");
    reveal_strlit("--save_dir");
    reveal_strlit("--single-image");
    reveal_strlit("--single_image");
    reveal_strlit("--instructions");
    reveal_strlit("--mask");
    assert("-h"@.len() == 2 && "--help"@.len() == 6 && "-o"@.len() == 2 && "--output"@.len() == 8);
    assert("-h"@[1] != "-o"@[1]);
    assert("--help"@[2] == 'h' && "--mask"@[2] == 'm');
    assert("--called-from-python"@.len() == 20 && "--called_from_python"@.len() == 20);
    assert("--save-dir"@.len() == 10 && "--save_dir"@.len() == 10);
    assert("--single-image"@.len() == 14 && "--single_image"@.len() == 14);
    assert("--single-image"@[2] == 's' && "--single_image"@[2] == 's');
    assert("--instructions"@.len() == 14 && "--instructions"@[2] == 'i');
}

/// A word that does not begin with a dash names a file.
proof fn lemma_plain_word(arg: Seq<char>)
    ensures
        arg.len() == 0 || arg[0] != '-' ==> word_spec(arg) is Input,
{
    reveal_strlit("-h");
    reveal_strlit("--help");
    reveal_strlit("-o");
    reveal_strlit("--output");
    reveal_strlit("--called-from-python");
    reveal_strlit("--called_from_python");
    reveal_strlit("--save-dir");
    reveal_strlit("--save_dir");
    reveal_strlit("--single-image");
    reveal_strlit("--single_image");
    reveal_strlit("--instructions");
    reveal_strlit("--mask");
    assert("-h"@[0] == '-' && "--help"@[0] == '-' && "-o"@[0] == '-' && "--output"@[0] == '-');
    assert("--called-from-python"@[0] == '-' && "--called_from_python"@[0] == '-');
    assert("--save-dir"@[0] == '-' && "--save_dir"@[0] == '-');
    assert("--single-image"@[0] == '-' && "--single_image"@[0] == '-');
    assert("--instructions"@[0] == '-' && "--mask"@[0] == '-');
}

/// Without arguments nothing is asked for.
pub proof fn nothing_is_asked_for_at_first()
    ensures
        outcome_of(Seq::empty()).masks.len() == 0,
        outcome_of(Seq::empty()).outcome matches OutcomeView::Run(o) && {
            &&& o.inputs.len() == 0
            &&& o.output is None
            &&& !o.called_from_python
            &&& o.instructions is None
            &&& o.save_dir is None
            &&& !o.single_image
        },
{
}

/// A further word that does not begin with a dash is a further file to open, and changes
/// nothing else that was asked for.
pub proof fn a_plain_word_is_a_file(args: Seq<Seq<char>>, file: Seq<char>, o: OptionsView)
    requires
        outcome_of(args).outcome == OutcomeView::Run(o),
        file.len() == 0 || file[0] != '-',
    ensures
        outcome_of(args.push(file)) == (ParsedView {
            masks: outcome_of(args).masks,
            outcome: OutcomeView::Run(OptionsView { inputs: o.inputs.push(file), ..o }),
        }),
{
    lemma_plain_word(file);
    let more = seq![file];
    lemma_goes_on(args, more, 0, no_options(), Seq::empty());
    let all = args + more;
    let n = args.len() as int;
    assert(all =~= args.push(file));
    let (p, m) = gathered(args, 0, no_options(), Seq::empty())->0;
    assert(all[n] == file);
    let q = OptionsView { inputs: p.inputs.push(file), ..p };
    assert(parsed(all, n, p, m) == parsed(all, n + 1, q, m));
    assert(parsed(all, n + 1, q, m) == (ParsedView { masks: m, outcome: settled(q) }));
    assert(settled(q)->Run_0 =~= (OptionsView { inputs: o.inputs.push(file), ..o }));
}

/// A further option with its argument sets what it is for, whatever was set before, and
/// changes nothing else that was asked for. Instructions that are blank count as none.
pub proof fn an_option_sets_its_value(
    args: Seq<Seq<char>>,
    option: Seq<char>,
    value: Seq<char>,
    o: OptionsView,
)
    requires
        outcome_of(args).outcome == OutcomeView::Run(o),
    ensures
        option == "-o"@ || option == "--output"@ ==> outcome_of(args + seq![option, value]) == (
        ParsedView {
            masks: outcome_of(args).masks,
            outcome: OutcomeView::Run(OptionsView { output: Some(value), ..o }),
        }),
        option == "--save-dir"@ || option == "--save_dir"@ ==> outcome_of(
            args + seq![option, value],
        ) == (ParsedView {
            masks: outcome_of(args).masks,
            outcome: OutcomeView::Run(OptionsView { save_dir: Some(value), ..o }),
        }),
        option == "--instructions"@ ==> outcome_of(args + seq![option, value]) == (ParsedView {
            masks: outcome_of(args).masks,
            outcome: OutcomeView::Run(
                OptionsView {
                    instructions: if blank(value) {
                        None
                    } else {
                        Some(value)
                    },
                    ..o
                },
            ),
        }),
        option == "--mask"@ ==> outcome_of(args + seq![option, value]) == (ParsedView {
            masks: outcome_of(args).masks.push(value),
            outcome: OutcomeView::Run(o),
        }),
{
    lemma_words();
    let more = seq![option, value];
    lemma_goes_on(args, more, 0, no_options(), Seq::empty());
    let all = args + more;
    let n = args.len() as int;
    let (p, m) = gathered(args, 0, no_options(), Seq::empty())->0;
    assert(all[n] == option && all[n + 1] == value && all.len() == n + 2);
    let w = word_spec(option);
    if w is Output || w is SaveDir || w is Instructions || w is Mask {
        let q = with_value(p, w, value);
        let k = if w is Mask {
            m.push(value)
        } else {
            m
        };
        assert(parsed(all, n, p, m) == parsed(all, n + 2, q, k));
        assert(parsed(all, n + 2, q, k) == (ParsedView { masks: k, outcome: settled(q) }));
        if w is Output {
            assert(settled(q)->Run_0 =~= (OptionsView { output: Some(value), ..o }));
        } else if w is SaveDir {
            assert(settled(q)->Run_0 =~= (OptionsView { save_dir: Some(value), ..o }));
        } else if w is Instructions {
            assert(settled(q)->Run_0 =~= (OptionsView {
                instructions: if blank(value) {
                    None
                } else {
                    Some(value)
                },
                ..o
            }));
        }
    }
}

/// A further switch turns on what it is for, and changes nothing else that was asked for. That
/// another application waits for the mask asks for a file to write it to.
pub proof fn a_switch_turns_on(args: Seq<Seq<char>>, switch: Seq<char>, o: OptionsView)
    requires
        outcome_of(args).outcome == OutcomeView::Run(o),
    ensures
        switch == "--single-image"@ || switch == "--single_image"@ ==> outcome_of(args.push(switch))
            == (ParsedView {
            masks: outcome_of(args).masks,
            outcome: OutcomeView::Run(OptionsView { single_image: true, ..o }),
        }),
        switch == "--called-from-python"@ || switch == "--called_from_python"@ ==> {
            &&& o.output is Some ==> outcome_of(args.push(switch)) == (ParsedView {
                masks: outcome_of(args).masks,
                outcome: OutcomeView::Run(OptionsView { called_from_python: true, ..o }),
            })
            &&& o.output is None ==> outcome_of(args.push(switch)).outcome is Wrong
        },
        switch == "-h"@ || switch == "--help"@ ==> outcome_of(args.push(switch)).outcome is Help,
{
    lemma_words();
    let more = seq![switch];
    lemma_goes_on(args, more, 0, no_options(), Seq::empty());
    let all = args + more;
    let n = args.len() as int;
    assert(all =~= args.push(switch));
    let (p, m) = gathered(args, 0, no_options(), Seq::empty())->0;
    assert(all[n] == switch && all.len() == n + 1);
    let w = word_spec(switch);
    if w is SingleImage {
        let q = OptionsView { single_image: true, ..p };
        assert(parsed(all, n, p, m) == parsed(all, n + 1, q, m));
        assert(parsed(all, n + 1, q, m) == (ParsedView { masks: m, outcome: settled(q) }));
        assert(settled(q)->Run_0 =~= (OptionsView { single_image: true, ..o }));
    } else if w is CalledFromPython {
        let q = OptionsView { called_from_python: true, ..p };
        assert(parsed(all, n, p, m) == parsed(all, n + 1, q, m));
        assert(parsed(all, n + 1, q, m) == (ParsedView { masks: m, outcome: settled(q) }));
        if o.output is Some {
            assert(settled(q)->Run_0 =~= (OptionsView { called_from_python: true, ..o }));
        }
    }
}

/// A further word that begins with a dash and is no option is refused, and so is an option
/// without its argument.
pub proof fn what_is_no_option_is_refused(args: Seq<Seq<char>>, word: Seq<char>, o: OptionsView)
    requires
        outcome_of(args).outcome == OutcomeView::Run(o),
    ensures
        word_spec(word) is Unknown ==> outcome_of(args.push(word)).outcome == OutcomeView::Wrong(
            "Unknown option: "@ + word,
        ),
        word == "-o"@ || word == "--output"@ || word == "--save-dir"@ || word == "--save_dir"@
            || word == "--instructions"@ || word == "--mask"@ ==> outcome_of(
            args.push(word),
        ).outcome is Wrong,
        word.len() > 0 && word[0] == '-' && word != "-h"@ && word != "--help"@ && word != "-o"@
            && word != "--output"@ && word != "--called-from-python"@ && word
            != "--called_from_python"@ && word != "--save-dir"@ && word != "--save_dir"@ && word
            != "--single-image"@ && word != "--single_image"@ && word != "--instructions"@ && word
            != "--mask"@ ==> word_spec(word) is Unknown,
{
    lemma_words();
    let more = seq![word];
    lemma_goes_on(args, more, 0, no_options(), Seq::empty());
    let all = args + more;
    let n = args.len() as int;
    assert(all =~= args.push(word));
    assert(all[n] == word && all.len() == n + 1);
}

} // verus!
