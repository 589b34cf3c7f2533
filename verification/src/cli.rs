//! The decisions of the command line: from the arguments to what is to be
//! printed.
use vstd::prelude::*;
use vstd::string::*;
use crate::currency::{currency_of, lookup};
use crate::engine::{
    convert, convert_result, num2words, parse_request, plain_request, ConversionRequest,
    RequestView,
};
use crate::error::error_message;
use crate::lexicon::{is_supported, lexicon_of};
use crate::mode::Mode;
use crate::notation::{i64_of, text_to_i64};
use crate::number::{integer_view, Number, NumberView};
use crate::preference::preference_pair;
use crate::text::{chars_of, join, join_words, same_text, texts};

verus! {

/// What a command ends in.
#[derive(Debug)]
pub enum CmdOutcome {
    /// The words, for the standard output.
    Output(String),
    /// The message of an error, for the standard error.
    Failure(String),
    /// The help text is to be shown.
    Help,
}

/// What a `CmdOutcome` stands for.
pub enum OutcomeView {
    Output(Seq<char>),
    Failure(Seq<char>),
    Help,
}

impl View for CmdOutcome {
    type V = OutcomeView;

    open spec fn view(&self) -> OutcomeView {
        match self {
            CmdOutcome::Output(s) => OutcomeView::Output(s@),
            CmdOutcome::Failure(s) => OutcomeView::Failure(s@),
            CmdOutcome::Help => OutcomeView::Help,
        }
    }
}

/// The request with the output that the token names: a registered currency
/// code names an amount of that currency; else the token names a mode; else
/// it names nothing.
pub open spec fn with_target(req: RequestView, t: Seq<char>) -> Option<RequestView> {
    if currency_of(t) is Some {
        Some(RequestView { mode: Mode::Currency, currency: Some(t), ..req })
    } else if t == "cardinal"@ {
        Some(RequestView { mode: Mode::Cardinal, ..req })
    } else if t == "ordinal"@ {
        Some(RequestView { mode: Mode::Ordinal, ..req })
    } else if t == "ordinal_num"@ {
        Some(RequestView { mode: Mode::OrdinalNumeral, ..req })
    } else if t == "year"@ {
        Some(RequestView { mode: Mode::Year, ..req })
    } else {
        None
    }
}

/// How a finished request ends: in its words, or in the message of its
/// failure.
pub open spec fn finish(req: RequestView) -> OutcomeView {
    match convert_result(req) {
        Ok(s) => OutcomeView::Output(s),
        Err(e) => OutcomeView::Failure(error_message(e)),
    }
}

/// What one argument makes of a command: it goes on at a later place with
/// a request, or it ends.
pub enum StepView {
    Next(RequestView, int),
    Done(OutcomeView),
}

/// What the argument at place `i` makes of the request. An option takes
/// the next argument as its value, whatever it is; without one the help is
/// shown. An unknown language or output ends the command at once. Any
/// other argument is passed over.
pub open spec fn arg_step(req: RequestView, args: Seq<Seq<char>>, i: int) -> StepView
    recommends
        0 <= i < args.len(),
{
    if args[i] == "--lang"@ || args[i] == "-l"@ {
        if i + 1 >= args.len() {
            StepView::Done(OutcomeView::Help)
        } else if lexicon_of(args[i + 1]) is None {
            StepView::Done(OutcomeView::Failure("invalid language"@))
        } else {
            StepView::Next(RequestView { locale: args[i + 1], ..req }, i + 2)
        }
    } else if args[i] == "--prefer"@ || args[i] == "-p"@ {
        if i + 1 >= args.len() {
            StepView::Done(OutcomeView::Help)
        } else {
            let pair = preference_pair(args[i + 1]);
            StepView::Next(
                RequestView { preferences: req.preferences.insert(pair.0, pair.1), ..req },
                i + 2,
            )
        }
    } else if args[i] == "--to"@ || args[i] == "-t"@ {
        if i + 1 >= args.len() {
            StepView::Done(OutcomeView::Help)
        } else {
            match with_target(req, args[i + 1]) {
                None => StepView::Done(OutcomeView::Failure("invalid to tag"@)),
                Some(next) => StepView::Next(next, i + 2),
            }
        }
    } else {
        StepView::Next(req, i + 1)
    }
}

/// What the arguments from place `i` on make of the request: step by
/// step, and with no argument left the request is finished.
#[verifier::opaque]
pub open spec fn run_args(req: RequestView, args: Seq<Seq<char>>, i: int) -> OutcomeView
    decreases args.len() - i,
{
    if i < 0 || i >= args.len() {
        finish(req)
    } else {
        match arg_step(req, args, i) {
            StepView::Done(outcome) => outcome,
            StepView::Next(next, j) => if j > i {
                run_args(next, args, j)
            } else {
                finish(next)
            },
        }
    }
}

/// What the command for the number text `n` with the arguments `args` ends
/// in.
pub open spec fn command_outcome(n: Seq<char>, args: Seq<Seq<char>>) -> OutcomeView {
    match parse_request(n) {
        None => OutcomeView::Failure("cannot parse number"@),
        Some(req) => run_args(req, args, 0),
    }
}

/// The request with the output that the token names, if it names one.
pub fn apply_target(request: ConversionRequest, t: &str) -> (r: Result<
    ConversionRequest,
    ConversionRequest,
>)
    ensures
        match r {
            Ok(next) => with_target(request@, t@) == Some(next@),
            Err(same) => with_target(request@, t@) is None && same@ == request@,
        },
{
    if lookup(t).is_some() {
        Ok(request.currency(t))
    } else if same_text(t, "cardinal") {
        Ok(request.cardinal())
    } else if same_text(t, "ordinal") {
        Ok(request.ordinal())
    } else if same_text(t, "ordinal_num") {
        Ok(request.ordinal_num())
    } else if same_text(t, "year") {
        Ok(request.year())
    } else {
        Err(request)
    }
}

/// With no argument left, the request is finished.
pub proof fn lemma_no_args_left(req: RequestView, args: Seq<Seq<char>>, i: int)
    requires
        i >= args.len(),
    ensures
        run_args(req, args, i) == finish(req),
{
    reveal(run_args);
}

/// What one argument makes of a command: it goes on at a later place with
/// a request, or it ends.
#[derive(Debug)]
pub enum Step {
    Next(ConversionRequest, usize),
    Done(CmdOutcome),
}

impl View for Step {
    type V = StepView;

    open spec fn view(&self) -> StepView {
        match self {
            Step::Next(request, place) => StepView::Next(request@, *place as int),
            Step::Done(outcome) => StepView::Done(outcome@),
        }
    }
}

/// Reads the argument at place `i`, and the value after it where it is an
/// option.
pub fn take_arg(num: ConversionRequest, args: &Vec<String>, i: usize) -> (r: Step)
    requires
        i < args@.len(),
    ensures
        r@ == arg_step(num@, texts(args@), i as int),
{
    let ghost all = texts(args@);
    let count = args.len();
    let arg = args[i].as_str();
    assert(arg@ == all[i as int]);
    if same_text(arg, "--lang") || same_text(arg, "-l") {
        if i + 1 >= count {
            return Step::Done(CmdOutcome::Help);
        }
        let value = args[i + 1].as_str();
        assert(value@ == all[i + 1]);
        if !is_supported(value) {
            return Step::Done(CmdOutcome::Failure(String::from_str("invalid language")));
        }
        Step::Next(num.lang(value), i + 2)
    } else if same_text(arg, "--prefer") || same_text(arg, "-p") {
        if i + 1 >= count {
            return Step::Done(CmdOutcome::Help);
        }
        let value = args[i + 1].as_str();
        assert(value@ == all[i + 1]);
        Step::Next(num.prefer(value), i + 2)
    } else if same_text(arg, "--to") || same_text(arg, "-t") {
        if i + 1 >= count {
            return Step::Done(CmdOutcome::Help);
        }
        let value = args[i + 1].as_str();
        assert(value@ == all[i + 1]);
        match apply_target(num, value) {
            Ok(next) => Step::Next(next, i + 2),
            Err(_) => Step::Done(CmdOutcome::Failure(String::from_str("invalid to tag"))),
        }
    } else {
        Step::Next(num, i + 1)
    }
}

/// Decides what the arguments make of the request.
#[verifier::loop_isolation(false)]
pub fn run(request: ConversionRequest, args: &Vec<String>) -> (r: CmdOutcome)
    ensures
        r@ == run_args(request@, texts(args@), 0),
{
    let ghost all = texts(args@);
    let ghost first = request@;
    let ghost goal = run_args(first, all, 0);
    let mut num = request;
    let count = args.len();
    let mut i: usize = 0;
    while i < count
        invariant
            i <= count,
            count == args@.len(),
            all == texts(args@),
            goal == run_args(first, all, 0),
            goal == run_args(num@, all, i as int),
        decreases count - i,
    {
        proof {
            reveal(run_args);
        }
        match take_arg(num, args, i) {
            Step::Next(next, j) => {
                num = next;
                i = j;
            },
            Step::Done(outcome) => {
                return outcome;
            },
        }
    }
    proof {
        lemma_no_args_left(num@, all, i as int);
    }
    match convert(&num) {
        Ok(v) => CmdOutcome::Output(v),
        Err(err) => CmdOutcome::Failure(err.message()),
    }
}

/// Decides what the command for the number text `n` with the arguments
/// `args` ends in.
pub fn handle_cmd(n: String, args: Vec<String>) -> (r: CmdOutcome)
    ensures
        r@ == command_outcome(n@, texts(args@)),
{
    match num2words(n) {
        Some(num) => run(num, &args),
        None => CmdOutcome::Failure(String::from_str("cannot parse number")),
    }
}

/// The parts of `s` between the characters `c`, from the part that starts
/// at `start` on, where no `c` stands from `start` up to `i`.
pub open spec fn split_from(s: Seq<char>, c: char, start: int, i: int) -> Seq<Seq<char>>
    decreases s.len() - i,
{
    if start < 0 || i < start {
        Seq::empty()
    } else if i >= s.len() {
        seq![s.subrange(start, s.len() as int)]
    } else if s[i] == c {
        seq![s.subrange(start, i)] + split_from(s, c, i + 1, i + 1)
    } else {
        split_from(s, c, start, i + 1)
    }
}

/// The parts of `s` between the characters `c`.
pub open spec fn split_on(s: Seq<char>, c: char) -> Seq<Seq<char>> {
    split_from(s, c, 0, 0)
}

/// The parts of `text` between the characters `c`.
pub fn split(text: &str, c: char) -> (r: Vec<String>)
    ensures
        texts(r@) == split_on(text@, c),
{
    let cs = chars_of(text);
    let n = cs.len();
    let mut parts: Vec<String> = Vec::new();
    let mut start: usize = 0;
    let mut i: usize = 0;
    while i < n
        invariant
            start <= i <= n,
            n == cs@.len(),
            cs@ == text@,
            split_on(text@, c) == texts(parts@) + split_from(text@, c, start as int, i as int),
        decreases n - i,
    {
        if cs[i] == c {
            let ghost before = parts@;
            parts.push(String::from_str(text.substring_char(start, i)));
            proof {
                assert(texts(parts@) =~= texts(before).push(text@.subrange(start as int, i as int)));
                assert(texts(before) + (seq![text@.subrange(start as int, i as int)] + split_from(
                    text@,
                    c,
                    i + 1,
                    i + 1,
                )) =~= texts(parts@) + split_from(text@, c, i + 1, i + 1));
            }
            start = i + 1;
        }
        i += 1;
    }
    let ghost before = parts@;
    parts.push(String::from_str(text.substring_char(start, n)));
    proof {
        assert(texts(parts@) =~= texts(before) + seq![text@.subrange(start as int, n as int)]);
    }
    parts
}

/// The request for a number said with the short zero.
pub open spec fn short_zero_request(n: NumberView) -> RequestView {
    RequestView {
        preferences: Map::<Seq<char>, Seq<char>>::empty().insert(
            preference_pair("oh"@).0,
            preference_pair("oh"@).1,
        ),
        ..plain_request(n)
    }
}

/// The words of one part of a version: those of the 64-bit signed integer
/// that the part writes, with the short zero. A part that writes no such
/// integer has no words: one with a decimal point or an exponent, one
/// beyond the range, or any other text.
pub open spec fn spoken_part(part: Seq<char>) -> Option<Seq<char>> {
    match i64_of(part) {
        Some(v) => match convert_result(short_zero_request(integer_view(v as int))) {
            Ok(w) => Some(w),
            Err(_) => None,
        },
        None => None,
    }
}

/// The words of the parts that have some, in order.
pub open spec fn spoken_parts(parts: Seq<Seq<char>>) -> Seq<Seq<char>>
    decreases parts.len(),
{
    if parts.len() == 0 {
        Seq::empty()
    } else {
        match spoken_part(parts.last()) {
            Some(w) => spoken_parts(parts.drop_last()).push(w),
            None => spoken_parts(parts.drop_last()),
        }
    }
}

/// The line that names a version: the version as it is, and the integers
/// among its parts between the points, in words with the word `point`
/// between them.
pub open spec fn version_text(version: Seq<char>) -> Seq<char> {
    "v"@ + version + " (version "@ + join_words(
        spoken_parts(split_on(version, '.')),
        " point "@,
    ) + ")"@
}

/// The line that names the version.
pub fn get_version(version: &str) -> (r: String)
    ensures
        r@ == version_text(version@),
{
    let parts = split(version, '.');
    let mut words: Vec<String> = Vec::new();
    let mut i: usize = 0;
    while i < parts.len()
        invariant
            i <= parts@.len(),
            texts(words@) == spoken_parts(texts(parts@).take(i as int)),
        decreases parts@.len() - i,
    {
        proof {
            let next = texts(parts@).take(i + 1);
            assert(next.drop_last() =~= texts(parts@).take(i as int));
            assert(next.last() == parts@[i as int]@);
        }
        match text_to_i64(parts[i].as_str()) {
            Some(v) => {
                let request = ConversionRequest::new(Number::from_i64(v)).prefer("oh");
                match convert(&request) {
                    Ok(word) => {
                        let ghost before = words@;
                        words.push(word);
                        proof {
                            assert(texts(words@) =~= texts(before).push(word@));
                        }
                    },
                    Err(_) => {},
                }
            },
            None => {},
        }
        i += 1;
    }
    proof {
        assert(texts(parts@).take(parts@.len() as int) =~= texts(parts@));
    }
    let mut out = String::from_str("v");
    out.append(version);
    out.append(" (version ");
    out.append(join(&words, " point ").as_str());
    out.append(")");
    out
}

} // verus!
