//! Asking the user for variable values: what is shown, and what an answer means.
use vstd::prelude::*;
use vstd::string::StringSliceAdditionalSpecFns;
use vstd::utf8::{decode_utf8, encode_utf8, is_char_boundary};

use crate::env::MissingVar;
use crate::executor::byte_count;
use crate::spec::{opt_view, var_type_name, EnvVarModel, EnvVarSpec};
use crate::strmap::StrMap;
use crate::text::{
    concat, contains_seq, contains_str, decimal, decimal_string, has_prefix, index_of_char,
    join_strings, join_with, lowercase, owned, parse_usize, parsed_usize, starts_with_str,
    str_chars, str_eq, substring, to_lower, trim, trim_str, find_char_in, lemma_index_of_char,
};

verus! {

/// The values the user gave, and whether to save them.
pub struct PromptResult {
    /// The values, by variable name.
    pub values: StrMap<String>,
    /// Whether the user asked for them to be saved.
    pub save: bool,
}

/// A variable with its current value, for review.
#[derive(Debug)]
pub struct EditableVar {
    pub name: String,
    pub spec: EnvVarSpec,
    pub current_value: Option<String>,
}

impl View for EditableVar {
    type V = (Seq<char>, EnvVarModel, Option<Seq<char>>);

    open spec fn view(&self) -> (Seq<char>, EnvVarModel, Option<Seq<char>>) {
        (self.name@, self.spec@, opt_view(self.current_value))
    }
}

/// Whether a variable name suggests a sensitive value: its lower-case form contains `key`,
/// `secret`, `password`, `token` or `credential`.
pub open spec fn sensitive_name(name: Seq<char>) -> bool {
    let l = lowercase(name);
    contains_seq(l, "key"@) || contains_seq(l, "secret"@) || contains_seq(l, "password"@)
        || contains_seq(l, "token"@) || contains_seq(l, "credential"@)
}

/// Whether masking `v` keeps whole characters: it has at most 4 bytes, or its fourth byte
/// ends a character.
pub open spec fn mask_ok(v: Seq<char>) -> bool {
    byte_count(v) <= 4 || is_char_boundary(encode_utf8(v), 4)
}

/// `n` stars.
pub open spec fn stars(n: nat) -> Seq<char> {
    Seq::new(n, |i: int| '*')
}

/// A value as shown masked: one star per byte when it has at most 4 bytes, else its first 4
/// bytes followed by `***`.
pub open spec fn masked_value(v: Seq<char>) -> Seq<char> {
    if byte_count(v) <= 4 {
        stars(byte_count(v) as nat)
    } else {
        decode_utf8(encode_utf8(v).subrange(0, 4)) + "***"@
    }
}

/// A value as shown for variable `name`: masked when the name is sensitive.
pub open spec fn shown_value(name: Seq<char>, v: Seq<char>) -> Seq<char> {
    if sensitive_name(name) {
        masked_value(v)
    } else {
        v
    }
}

/// The mark after an option: which one is the current value, or else the default.
pub open spec fn option_marker(option: Seq<char>, spec: EnvVarModel, current: Option<Seq<char>>) -> Seq<
    char,
> {
    let effective = match current {
        Some(c) => Some(c),
        None => spec.default,
    };
    if effective == Some(option) {
        if current is Some {
            " (current)"@
        } else {
            " (default)"@
        }
    } else {
        Seq::empty()
    }
}

/// The numbered lines of the options.
pub open spec fn option_lines(options: Seq<Seq<char>>, spec: EnvVarModel, current: Option<Seq<char>>) -> Seq<
    char,
>
    decreases options.len(),
{
    if options.len() == 0 {
        Seq::empty()
    } else {
        option_lines(options.drop_last(), spec, current) + "    "@ + decimal(options.len()) + ". "@
            + options.last() + option_marker(options.last(), spec, current) + "\n"@
    }
}

/// The menu shown for a variable with options.
pub open spec fn choice_menu(name: Seq<char>, spec: EnvVarModel, current: Option<Seq<char>>) -> Seq<
    char,
> {
    "\n  "@ + name + " ("@ + var_type_name(spec.var_type) + ") - choose from:\n"@ + option_lines(
        spec.options,
        spec,
        current,
    ) + "  Select [1-"@ + decimal(spec.options.len()) + "]: "@
}

/// The note shown after an answer that selects no option.
pub open spec fn invalid_note(spec: EnvVarModel) -> Seq<char> {
    "  Invalid selection. Please enter 1-"@ + decimal(spec.options.len()) + " or one of: "@
        + join_with(spec.options, ", "@) + "\n"@
}

/// The note shown when a required variable gets no value.
pub open spec fn required_note() -> Seq<char> {
    "  This variable is required. Please enter a value.\n"@
}

/// The question asked for a variable without options.
pub open spec fn freeform_question(name: Seq<char>, spec: EnvVarModel, current: Option<Seq<char>>) -> Seq<
    char,
> {
    let head = "  "@ + name + " ("@ + var_type_name(spec.var_type) + ")"@;
    match current {
        Some(c) => head + " [current: "@ + shown_value(name, c) + "]: "@,
        None => match spec.default {
            Some(d) => head + " [default: "@ + d + "]: "@,
            None => head + ": "@,
        },
    }
}

/// The question asked for a variable.
pub open spec fn var_question(name: Seq<char>, spec: EnvVarModel, current: Option<Seq<char>>) -> Seq<
    char,
> {
    if spec.options.len() > 0 {
        choice_menu(name, spec, current)
    } else {
        freeform_question(name, spec, current)
    }
}

/// Whether the question for a variable can be shown: a current value shown masked keeps
/// whole characters.
pub open spec fn question_ok(name: Seq<char>, spec: EnvVarModel, current: Option<Seq<char>>) -> bool {
    spec.options.len() > 0 || match current {
        Some(c) => !sensitive_name(name) || mask_ok(c),
        None => true,
    }
}

/// What an answer does: gives the value, or shows the text and asks again.
pub enum Answer {
    Accept(String),
    Again(String),
}

/// The mathematical content of an [`Answer`].
pub enum AnswerModel {
    Accept(Seq<char>),
    Again(Seq<char>),
}

impl View for Answer {
    type V = AnswerModel;

    open spec fn view(&self) -> AnswerModel {
        match self {
            Answer::Accept(s) => AnswerModel::Accept(s@),
            Answer::Again(s) => AnswerModel::Again(s@),
        }
    }
}

/// What the (trimmed) answer `input` to the question for a variable means.
///
/// With options: nothing keeps the current value, or else takes the default, or else asks
/// again; a number from 1 to the number of options selects that option; an option itself
/// selects it; anything else is refused with a note. Without options: nothing keeps the
/// current value, or else takes the default, or else asks again when the variable is
/// required (and gives the empty value when not); any other text is the value.
pub open spec fn answer_of(
    name: Seq<char>,
    spec: EnvVarModel,
    current: Option<Seq<char>>,
    input: Seq<char>,
) -> AnswerModel {
    if spec.options.len() > 0 {
        if input.len() == 0 {
            match current {
                Some(c) => AnswerModel::Accept(c),
                None => match spec.default {
                    Some(d) => AnswerModel::Accept(d),
                    None => AnswerModel::Again(choice_menu(name, spec, current)),
                },
            }
        } else if parsed_usize(input) is Some && 1 <= parsed_usize(input).unwrap()
            <= spec.options.len() {
            AnswerModel::Accept(spec.options[parsed_usize(input).unwrap() - 1])
        } else if spec.options.contains(input) {
            AnswerModel::Accept(input)
        } else {
            AnswerModel::Again(invalid_note(spec) + choice_menu(name, spec, current))
        }
    } else if input.len() == 0 {
        match current {
            Some(c) => AnswerModel::Accept(c),
            None => match spec.default {
                Some(d) => AnswerModel::Accept(d),
                None => if spec.required {
                    AnswerModel::Again(required_note() + freeform_question(name, spec, current))
                } else {
                    AnswerModel::Accept(input)
                },
            },
        }
    } else {
        AnswerModel::Accept(input)
    }
}

/// Whether the answer to the save question asks to save: nothing, or a text whose lower-case
/// form starts with `y`.
pub open spec fn save_answer(input: Seq<char>) -> bool {
    input.len() == 0 || has_prefix(lowercase(input), "y"@)
}

/// The save question.
pub open spec fn save_question() -> Seq<char> {
    "\nSave these values for future runs? [Y/n]: "@
}

/// The next line of `rest`, trimmed, and what follows it; at the end, an empty line.
pub open spec fn next_line(rest: Seq<char>) -> (Seq<char>, Seq<char>) {
    let e = index_of_char(rest, '\n');
    (trim(rest.take(e as int)), if e < rest.len() {
        rest.skip(e + 1int)
    } else {
        Seq::empty()
    })
}

/// Asking for a variable until an answer gives a value, reading lines of `rest`: the value
/// (none when the input ends while the question is still open), the input left, and what
/// was shown after the first question.
pub open spec fn ask_until_answered(
    name: Seq<char>,
    spec: EnvVarModel,
    current: Option<Seq<char>>,
    rest: Seq<char>,
) -> (Option<Seq<char>>, Seq<char>, Seq<char>)
    decreases rest.len(),
{
    let (line, after) = next_line(rest);
    match answer_of(name, spec, current, line) {
        AnswerModel::Accept(v) => (Some(v), after, Seq::empty()),
        AnswerModel::Again(t) => if rest.len() == 0 {
            (None, rest, Seq::empty())
        } else {
            let (r, left, shown) = ask_until_answered(name, spec, current, after);
            (r, left, t + shown)
        },
    }
}

/// Prompts on the command line, reading answers from a text given in advance.
pub struct CliPrompter {
    input: Vec<char>,
    pos: usize,
    output: String,
}

impl View for CliPrompter {
    /// The input not read yet, and everything shown so far.
    type V = (Seq<char>, Seq<char>);

    closed spec fn view(&self) -> (Seq<char>, Seq<char>) {
        (self.input@.skip(self.pos as int), self.output@)
    }
}

impl CliPrompter {
    #[verifier::type_invariant]
    spec fn within_input(self) -> bool {
        self.pos <= self.input@.len()
    }

    /// A prompter that reads the lines of `input` and shows nothing yet.
    pub fn with_streams(input: &str) -> (r: Self)
        ensures
            r@ == (input@, Seq::<char>::empty()),
    {
        let r = CliPrompter { input: str_chars(input), pos: 0, output: String::new() };
        assert(r.input@.skip(0) =~= input@);
        r
    }

    /// Everything shown so far.
    pub fn output(&self) -> (r: &str)
        ensures
            r@ == self@.1,
    {
        self.output.as_str()
    }

    fn show(&mut self, text: &str)
        ensures
            final(self)@ == (old(self)@.0, old(self)@.1 + text@),
    {
        proof {
            use_type_invariant(&*self);
        }
        self.output = concat(self.output.as_str(), text);
    }

    /// The next line of input, trimmed; an empty line once the input is used up.
    pub fn read_line(&mut self) -> (r: String)
        ensures
            r@ == next_line(old(self)@.0).0,
            final(self)@ == (next_line(old(self)@.0).1, old(self)@.1),
    {
        proof {
            use_type_invariant(&*self);
        }
        let ghost rest = self.input@.skip(self.pos as int);
        let end = find_char_in(&self.input, '\n', self.pos, self.input.len());
        proof {
            lemma_index_of_char(rest, '\n');
        }
        let line = substring(&self.input, self.pos, end);
        assert(line@ =~= rest.take((end - self.pos) as int));
        let r = trim_str(line.as_str());
        if end < self.input.len() {
            self.pos = end + 1;
            assert(self.input@.skip(self.pos as int) =~= rest.skip((end - old(self).pos) + 1));
        } else {
            self.pos = self.input.len();
            assert(self.input@.skip(self.pos as int) =~= Seq::<char>::empty());
        }
        r
    }

    /// Whether `name` suggests a sensitive value.
    pub fn is_sensitive(name: &str) -> (r: bool)
        ensures
            r == sensitive_name(name@),
    {
        let l = to_lower(name);
        contains_str(l.as_str(), "key") || contains_str(l.as_str(), "secret") || contains_str(
            l.as_str(),
            "password",
        ) || contains_str(l.as_str(), "token") || contains_str(l.as_str(), "credential")
    }

    /// A value masked for display: stars for a short value, else its first four bytes and
    /// `***`.
    pub fn mask_value(value: &str) -> (r: String)
        requires
            mask_ok(value@),
        ensures
            r@ == masked_value(value@),
    {
        let n = value.len();
        if n <= 4 {
            let mut out: Vec<char> = Vec::new();
            let mut i: usize = 0;
            while i < n
                invariant
                    0 <= i <= n,
                    out@ == stars(i as nat),
                decreases n - i,
            {
                out.push('*');
                assert(out@ =~= stars((i + 1) as nat));
                i = i + 1;
            }
            crate::text::string_from_chars(out.as_slice())
        } else {
            let (head, _tail) = value.split_at(4);
            proof {
                vstd::utf8::encode_utf8_decode_utf8(head@);
                assert(head.spec_bytes() == encode_utf8(head@));
            }
            concat(head, "***")
        }
    }

    /// Whether `value` can be masked without cutting a character.
    pub fn can_mask(value: &str) -> (r: bool)
        ensures
            r == mask_ok(value@),
    {
        value.len() <= 4 || value.is_char_boundary(4)
    }

    /// Whether the question for a variable can be shown.
    pub fn can_ask(var: &EditableVar) -> (r: bool)
        ensures
            r == question_ok(var.name@, var.spec@, opt_view(var.current_value)),
    {
        if var.spec.options.len() > 0 {
            return true;
        }
        match &var.current_value {
            Some(c) => !Self::is_sensitive(var.name.as_str()) || Self::can_mask(c.as_str()),
            None => true,
        }
    }

    /// The question for a variable: its menu of options, or a plain question.
    pub fn question(name: &str, spec: &EnvVarSpec, current: Option<&str>) -> (r: String)
        requires
            question_ok(name@, spec@, opt_str(current)),
        ensures
            r@ == var_question(name@, spec@, opt_str(current)),
    {
        if spec.options.len() > 0 {
            Self::choice_menu_text(name, spec, current)
        } else {
            Self::freeform_question_text(name, spec, current)
        }
    }

    fn choice_menu_text(name: &str, spec: &EnvVarSpec, current: Option<&str>) -> (r: String)
        ensures
            r@ == choice_menu(name@, spec@, opt_str(current)),
    {
        let a = concat("\n  ", name);
        let b = concat(a.as_str(), " (");
        let c = concat(b.as_str(), spec.var_type.as_str());
        let mut out = concat(c.as_str(), ") - choose from:\n");
        let ghost head = out@;
        let mut i: usize = 0;
        while i < spec.options.len()
            invariant
                0 <= i <= spec.options.len(),
                out@ == head + option_lines(spec.options.deep_view().take(i as int), spec@, opt_str(current)),
            decreases spec.options.len() - i,
        {
            let ghost t = spec.options.deep_view().take(i + 1);
            assert(t.drop_last() =~= spec.options.deep_view().take(i as int));
            assert(t.last() == spec.options@[i as int]@);
            let option = spec.options[i].as_str();
            let marker = Self::marker(option, spec, current);
            let num = decimal_string((i + 1) as u64);
            let a = concat(out.as_str(), "    ");
            let b = concat(a.as_str(), num.as_str());
            let c = concat(b.as_str(), ". ");
            let d = concat(c.as_str(), option);
            let e = concat(d.as_str(), marker);
            out = concat(e.as_str(), "\n");
            assert(out@ =~= head + option_lines(t, spec@, opt_str(current)));
            i = i + 1;
        }
        assert(spec.options.deep_view().take(spec.options.len() as int) =~= spec.options.deep_view());
        let n = decimal_string(spec.options.len() as u64);
        let a = concat(out.as_str(), "  Select [1-");
        let b = concat(a.as_str(), n.as_str());
        concat(b.as_str(), "]: ")
    }

    fn marker(option: &str, spec: &EnvVarSpec, current: Option<&str>) -> (r: &'static str)
        ensures
            r@ == option_marker(option@, spec@, opt_str(current)),
    {
        let effective_matches = match current {
            Some(c) => str_eq(c, option),
            None => match &spec.default {
                Some(d) => str_eq(d.as_str(), option),
                None => false,
            },
        };
        if effective_matches {
            if current.is_some() {
                " (current)"
            } else {
                " (default)"
            }
        } else {
            proof {
                reveal_strlit("");
                assert(""@ =~= Seq::<char>::empty());
            }
            ""
        }
    }

    fn freeform_question_text(name: &str, spec: &EnvVarSpec, current: Option<&str>) -> (r: String)
        requires
            current matches Some(c) ==> !sensitive_name(name@) || mask_ok(c@),
        ensures
            r@ == freeform_question(name@, spec@, opt_str(current)),
    {
        let a = concat("  ", name);
        let b = concat(a.as_str(), " (");
        let c = concat(b.as_str(), spec.var_type.as_str());
        let head = concat(c.as_str(), ")");
        match current {
            Some(cur) => {
                let shown = if Self::is_sensitive(name) {
                    Self::mask_value(cur)
                } else {
                    owned(cur)
                };
                let x = concat(head.as_str(), " [current: ");
                let y = concat(x.as_str(), shown.as_str());
                concat(y.as_str(), "]: ")
            },
            None => match &spec.default {
                Some(d) => {
                    let x = concat(head.as_str(), " [default: ");
                    let y = concat(x.as_str(), d.as_str());
                    concat(y.as_str(), "]: ")
                },
                None => concat(head.as_str(), ": "),
            },
        }
    }

    /// What the (trimmed) answer `input` means for a variable.
    pub fn answer(name: &str, spec: &EnvVarSpec, current: Option<&str>, input: &str) -> (r: Answer)
        requires
            question_ok(name@, spec@, opt_str(current)),
        ensures
            r@ == answer_of(name@, spec@, opt_str(current), input@),
    {
        proof {
            reveal_strlit("");
        }
        let empty = input.is_empty();
        if spec.options.len() > 0 {
            if empty {
                match current {
                    Some(c) => Answer::Accept(owned(c)),
                    None => match &spec.default {
                        Some(d) => Answer::Accept(d.clone()),
                        None => Answer::Again(Self::choice_menu_text(name, spec, current)),
                    },
                }
            } else {
                let picked = match parse_usize(input) {
                    Some(n) => if 1 <= n && n <= spec.options.len() {
                        Some(spec.options[n - 1].clone())
                    } else {
                        None
                    },
                    None => None,
                };
                match picked {
                    Some(v) => Answer::Accept(v),
                    None => if crate::env::contains_string(&spec.options, input) {
                        Answer::Accept(owned(input))
                    } else {
                        let n = decimal_string(spec.options.len() as u64);
                        let all = join_strings(&spec.options, ", ");
                        let a = concat("  Invalid selection. Please enter 1-", n.as_str());
                        let b = concat(a.as_str(), " or one of: ");
                        let c = concat(b.as_str(), all.as_str());
                        let note = concat(c.as_str(), "\n");
                        let menu = Self::choice_menu_text(name, spec, current);
                        Answer::Again(concat(note.as_str(), menu.as_str()))
                    },
                }
            }
        } else if empty {
            match current {
                Some(c) => Answer::Accept(owned(c)),
                None => match &spec.default {
                    Some(d) => Answer::Accept(d.clone()),
                    None => if spec.required {
                        let q = Self::freeform_question_text(name, spec, current);
                        Answer::Again(
                            concat("  This variable is required. Please enter a value.\n", q.as_str()),
                        )
                    } else {
                        Answer::Accept(owned(input))
                    },
                },
            }
        } else {
            Answer::Accept(owned(input))
        }
    }

    /// Asks for a variable until an answer gives its value; an I/O error when the input ends
    /// while the question is still open.
    pub fn prompt_var(&mut self, name: &str, spec: &EnvVarSpec, current: Option<&str>) -> (r: Result<
        String,
        crate::error::MeriadocError,
    >)
        requires
            question_ok(name@, spec@, opt_str(current)),
        ensures
            ({
                let (v, left, shown) = ask_until_answered(
                    name@,
                    spec@,
                    opt_str(current),
                    old(self)@.0,
                );
                &&& final(self)@.0 == left
                &&& final(self)@.1 == old(self)@.1 + var_question(name@, spec@, opt_str(current))
                    + shown
                &&& match r {
                    Ok(x) => v == Some(x@),
                    Err(_) => v is None,
                }
            }),
    {
        let ghost orig = self@;
        let q = Self::question(name, spec, current);
        self.show(q.as_str());
        let ghost start_out = self@.1;
        assert(start_out == orig.1 + var_question(name@, spec@, opt_str(current)));
        let ghost start_rest = self@.0;
        assert(start_rest == orig.0);
        let ghost mut shown: Seq<char> = Seq::empty();
        loop
            invariant
                question_ok(name@, spec@, opt_str(current)),
                start_rest == orig.0,
                orig == old(self)@,
                start_out == orig.1 + var_question(name@, spec@, opt_str(current)),
                self@.1 == start_out + shown,
                ask_until_answered(name@, spec@, opt_str(current), start_rest) == ({
                    let (v, left, rest_shown) = ask_until_answered(
                        name@,
                        spec@,
                        opt_str(current),
                        self@.0,
                    );
                    (v, left, shown + rest_shown)
                }),
            decreases self@.0.len(),
        {
            let ghost rest = self@.0;
            proof {
                use_type_invariant(&*self);
            }
            let at_end = self.pos == self.input.len();
            let line = self.read_line();
            assert(next_line(rest) == (line@, self@.0));
            match Self::answer(name, spec, current, line.as_str()) {
                Answer::Accept(v) => {
                    assert(ask_until_answered(name@, spec@, opt_str(current), rest) == (
                        Some(v@),
                        self@.0,
                        Seq::<char>::empty(),
                    ));
                    assert(shown + Seq::<char>::empty() =~= shown);
                    assert(ask_until_answered(name@, spec@, opt_str(current), start_rest) == (
                        Some(v@),
                        self@.0,
                        shown,
                    ));
                    assert(start_rest == orig.0);
                    return Ok(v);
                },
                Answer::Again(t) => {
                    if at_end {
                        assert(rest.len() == 0);
                        assert(ask_until_answered(name@, spec@, opt_str(current), rest) == (
                            None::<Seq<char>>,
                            rest,
                            Seq::<char>::empty(),
                        ));
                        assert(self@.0 =~= rest);
                        assert(shown + Seq::<char>::empty() =~= shown);
                        return Err(
                            crate::error::MeriadocError::Io(owned("unexpected end of input")),
                        );
                    }
                    self.show(t.as_str());
                    proof {
                        assert(rest.len() > 0);
                        let (v2, left2, shown2) = ask_until_answered(
                            name@,
                            spec@,
                            opt_str(current),
                            self@.0,
                        );
                        assert(ask_until_answered(name@, spec@, opt_str(current), rest) == (
                            v2,
                            left2,
                            t@ + shown2,
                        ));
                        assert(shown + (t@ + shown2) =~= (shown + t@) + shown2);
                        shown = shown + t@;
                    }
                },
            }
        }
    }

    /// Asks for a missing variable.
    pub fn prompt_single(&mut self, var: &MissingVar) -> (r: Result<String, crate::error::MeriadocError>)
        ensures
            ({
                let (v, left, shown) = ask_until_answered(var.name@, var.spec@, None, old(self)@.0);
                &&& final(self)@.0 == left
                &&& final(self)@.1 == old(self)@.1 + var_question(var.name@, var.spec@, None) + shown
                &&& match r {
                    Ok(x) => v == Some(x@),
                    Err(_) => v is None,
                }
            }),
    {
        self.prompt_var(var.name.as_str(), &var.spec, None)
    }

    /// Asks for a variable under review, offering its current value.
    pub fn prompt_editable(&mut self, var: &EditableVar) -> (r: Result<
        String,
        crate::error::MeriadocError,
    >)
        requires
            question_ok(var.name@, var.spec@, opt_view(var.current_value)),
        ensures
            ({
                let (v, left, shown) = ask_until_answered(
                    var.name@,
                    var.spec@,
                    opt_view(var.current_value),
                    old(self)@.0,
                );
                &&& final(self)@.0 == left
                &&& final(self)@.1 == old(self)@.1 + var_question(
                    var.name@,
                    var.spec@,
                    opt_view(var.current_value),
                ) + shown
                &&& match r {
                    Ok(x) => v == Some(x@),
                    Err(_) => v is None,
                }
            }),
    {
        let current: Option<&str> = match &var.current_value {
            Some(c) => Some(c.as_str()),
            None => None,
        };
        assert(opt_str(current) == opt_view(var.current_value));
        self.prompt_var(var.name.as_str(), &var.spec, current)
    }

    /// Asks whether to save the values.
    pub fn prompt_save(&mut self) -> (r: bool)
        ensures
            r == save_answer(next_line(old(self)@.0).0),
            final(self)@ == (next_line(old(self)@.0).1, old(self)@.1 + save_question()),
    {
        self.show("\nSave these values for future runs? [Y/n]: ");
        let line = self.read_line();
        Self::wants_save(line.as_str())
    }

    /// Whether an answer to the save question asks to save.
    pub fn wants_save(input: &str) -> (r: bool)
        ensures
            r == save_answer(input@),
    {
        proof {
            reveal_strlit("y");
        }
        input.is_empty() || starts_with_str(to_lower(input).as_str(), "y")
    }
}

/// The text of an optional string slice.
pub open spec fn opt_str(o: Option<&str>) -> Option<Seq<char>> {
    match o {
        Some(s) => Some(s@),
        None => None,
    }
}

/// Where a prompting session stands.
pub struct SessionModel {
    /// The variables asked for, with their current values.
    pub vars: Seq<(Seq<char>, EnvVarModel, Option<Seq<char>>)>,
    /// Whether the values are under review (else they are missing).
    pub review: bool,
    /// The variable asked for now; all are answered when it is past the last.
    pub next: nat,
    /// The values given so far.
    pub values: Map<Seq<char>, Seq<char>>,
    /// The answer to the save question, once given.
    pub save: Option<bool>,
}

/// The first lines of a session.
pub open spec fn session_header(review: bool) -> Seq<char> {
    if review {
        "\nReview/edit environment variables (press Enter to keep current value):\n"@
    } else {
        "\nMissing required environment variables:\n"@
    }
}

/// The question a session asks now.
pub open spec fn session_question(m: SessionModel) -> Seq<char> {
    if m.next < m.vars.len() {
        var_question(m.vars[m.next as int].0, m.vars[m.next as int].1, m.vars[m.next as int].2)
    } else {
        save_question()
    }
}

/// The line confirming a value: every value when missing values are asked for; under review,
/// only a changed value, masked when its name is sensitive.
pub open spec fn confirmation(review: bool, name: Seq<char>, current: Option<Seq<char>>, v: Seq<char>) -> Seq<
    char,
> {
    if !review {
        "  -> "@ + v + "\n"@
    } else if current != Some(v) {
        "  -> "@ + shown_value(name, v) + "\n"@
    } else {
        Seq::empty()
    }
}

/// A session after the (trimmed) answer `input`, and what it shows next.
pub open spec fn session_step(m: SessionModel, input: Seq<char>) -> (SessionModel, Seq<char>) {
    if m.next < m.vars.len() {
        let (name, spec, current) = m.vars[m.next as int];
        match answer_of(name, spec, current, input) {
            AnswerModel::Again(t) => (m, t),
            AnswerModel::Accept(v) => {
                let m2 = SessionModel { next: m.next + 1, values: m.values.insert(name, v), ..m };
                (m2, confirmation(m.review, name, current, v) + session_question(m2))
            },
        }
    } else if m.save is None {
        (SessionModel { save: Some(save_answer(input)), ..m }, Seq::empty())
    } else {
        (m, Seq::empty())
    }
}

/// Whether the answer `input` can be taken without cutting a character when a value is
/// shown masked.
pub open spec fn step_ok(m: SessionModel, input: Seq<char>) -> bool {
    m.next < m.vars.len() ==> match answer_of(
        m.vars[m.next as int].0,
        m.vars[m.next as int].1,
        m.vars[m.next as int].2,
        input,
    ) {
        AnswerModel::Accept(v) => m.review && m.vars[m.next as int].2 != Some(v) && sensitive_name(
            m.vars[m.next as int].0,
        ) ==> mask_ok(v),
        AnswerModel::Again(_) => true,
    }
}

/// The variables asked for, with their current values.
pub open spec fn session_vars(vars: Seq<EditableVar>) -> Seq<(Seq<char>, EnvVarModel, Option<Seq<char>>)> {
    vars.map_values(|v: EditableVar| v@)
}

/// A prompting session: asks for each variable in turn, then whether to save. It reads one
/// answer at a time and says what to show next, so that any line source can drive it.
pub struct PromptSession {
    vars: Vec<EditableVar>,
    review: bool,
    next: usize,
    values: StrMap<String>,
    save: Option<bool>,
}

impl View for PromptSession {
    type V = SessionModel;

    closed spec fn view(&self) -> SessionModel {
        SessionModel {
            vars: session_vars(self.vars@),
            review: self.review,
            next: self.next as nat,
            values: crate::dotenv::texts(self.values@),
            save: self.save,
        }
    }
}

impl PromptSession {
    /// Whether every question of the session can be shown.
    pub closed spec fn questions_ok(self) -> bool {
        forall|i: int|
            0 <= i < self.vars@.len() ==> question_ok(
                #[trigger] self.vars@[i]@.0,
                self.vars@[i]@.1,
                self.vars@[i]@.2,
            )
    }

    fn start(vars: Vec<EditableVar>, review: bool) -> (r: (PromptSession, String))
        requires
            forall|i: int|
                0 <= i < vars@.len() ==> question_ok(
                    #[trigger] vars@[i]@.0,
                    vars@[i]@.1,
                    vars@[i]@.2,
                ),
        ensures
            r.0@ == (SessionModel {
                vars: session_vars(vars@),
                review,
                next: 0,
                values: Map::empty(),
                save: None,
            }),
            r.0.questions_ok(),
            r.1@ == session_header(review) + session_question(r.0@),
    {
        let header = if review {
            owned("\nReview/edit environment variables (press Enter to keep current value):\n")
        } else {
            owned("\nMissing required environment variables:\n")
        };
        let session = PromptSession { vars, review, next: 0, values: StrMap::new(), save: None };
        assert(crate::dotenv::texts(session.values@) =~= Map::<Seq<char>, Seq<char>>::empty());
        let q = session.question_now();
        (session, concat(header.as_str(), q.as_str()))
    }

    /// A session asking for the missing variables.
    pub fn for_missing(missing: &[MissingVar]) -> (r: (PromptSession, String))
        ensures
            r.0@.vars == missing@.map_values(
                |m: MissingVar| (m.name@, m.spec@, None::<Seq<char>>),
            ),
            !r.0@.review,
            r.0@.next == 0,
            r.0@.values == Map::<Seq<char>, Seq<char>>::empty(),
            r.0@.save is None,
            r.0.questions_ok(),
            r.1@ == session_header(false) + session_question(r.0@),
    {
        let mut vars: Vec<EditableVar> = Vec::new();
        let mut i: usize = 0;
        while i < missing.len()
            invariant
                0 <= i <= missing.len(),
                vars@.len() == i,
                forall|j: int|
                    0 <= j < i ==> #[trigger] vars@[j]@ == (missing@[j].name@, missing@[j].spec@, None::<Seq<char>>),
            decreases missing.len() - i,
        {
            let m = missing[i].clone();
            let ghost before = vars@;
            vars.push(EditableVar { name: m.name, spec: m.spec, current_value: None });
            assert forall|j: int| 0 <= j < i + 1 implies #[trigger] vars@[j]@ == (
                missing@[j].name@,
                missing@[j].spec@,
                None::<Seq<char>>,
            ) by {
                if j < i {
                    assert(vars@[j] == before[j]);
                }
            }
            i = i + 1;
        }
        let ghost vs = vars@;
        let r = Self::start(vars, false);
        assert(session_vars(vs) =~= missing@.map_values(
            |m: MissingVar| (m.name@, m.spec@, None::<Seq<char>>),
        ));
        r
    }

    /// A session reviewing variables with their current values.
    pub fn for_review(vars: Vec<EditableVar>) -> (r: (PromptSession, String))
        requires
            forall|i: int|
                0 <= i < vars@.len() ==> question_ok(
                    #[trigger] vars@[i]@.0,
                    vars@[i]@.1,
                    vars@[i]@.2,
                ),
        ensures
            r.0@ == (SessionModel {
                vars: session_vars(vars@),
                review: true,
                next: 0,
                values: Map::empty(),
                save: None,
            }),
            r.0.questions_ok(),
            r.1@ == session_header(true) + session_question(r.0@),
    {
        Self::start(vars, true)
    }

    fn question_now(&self) -> (r: String)
        requires
            self.questions_ok(),
            self.next <= self.vars@.len(),
        ensures
            r@ == session_question(self@),
    {
        if self.next < self.vars.len() {
            let v = &self.vars[self.next];
            let current: Option<&str> = match &v.current_value {
                Some(c) => Some(c.as_str()),
                None => None,
            };
            assert(opt_str(current) == opt_view(v.current_value));
            assert(question_ok(self.vars@[self.next as int]@.0, self.vars@[self.next as int]@.1, self.vars@[self.next as int]@.2));
            CliPrompter::question(v.name.as_str(), &v.spec, current)
        } else {
            owned("\nSave these values for future runs? [Y/n]: ")
        }
    }

    /// Whether the session has its save answer.
    pub fn is_finished(&self) -> (r: bool)
        ensures
            r == (self@.save is Some),
    {
        self.save.is_some()
    }

    /// Whether taking the answer `input` shows every value without cutting a character.
    pub fn answer_ok(&self, input: &str) -> (r: bool)
        requires
            self.questions_ok(),
            self@.next <= self@.vars.len(),
        ensures
            r == step_ok(self@, input@),
    {
        if self.next < self.vars.len() {
            let v = &self.vars[self.next];
            let current: Option<&str> = match &v.current_value {
                Some(c) => Some(c.as_str()),
                None => None,
            };
            assert(opt_str(current) == opt_view(v.current_value));
            assert(question_ok(self.vars@[self.next as int]@.0, self.vars@[self.next as int]@.1, self.vars@[self.next as int]@.2));
            match CliPrompter::answer(v.name.as_str(), &v.spec, current, input) {
                Answer::Accept(value) => {
                    let unchanged = match current {
                        Some(c) => str_eq(c, value.as_str()),
                        None => false,
                    };
                    if self.review && !unchanged && CliPrompter::is_sensitive(v.name.as_str()) {
                        masks_whole(value.as_str())
                    } else {
                        true
                    }
                },
                Answer::Again(_) => true,
            }
        } else {
            true
        }
    }

    /// Takes the (trimmed) answer `input` and gives what to show next.
    pub fn answer(&mut self, input: &str) -> (r: String)
        requires
            old(self).questions_ok(),
            old(self)@.next <= old(self)@.vars.len(),
            step_ok(old(self)@, input@),
        ensures
            final(self).questions_ok(),
            final(self)@.next <= final(self)@.vars.len(),
            (final(self)@, r@) == session_step(old(self)@, input@),
    {
        proof {
            reveal_strlit("");
            assert(""@ =~= Seq::<char>::empty());
        }
        if self.next < self.vars.len() {
            let i = self.next;
            let current: Option<&str> = match &self.vars[i].current_value {
                Some(c) => Some(c.as_str()),
                None => None,
            };
            assert(opt_str(current) == opt_view(self.vars@[i as int].current_value));
            assert(question_ok(self.vars@[i as int]@.0, self.vars@[i as int]@.1, self.vars@[i as int]@.2));
            let a = CliPrompter::answer(self.vars[i].name.as_str(), &self.vars[i].spec, current, input);
            match a {
                Answer::Again(t) => t,
                Answer::Accept(value) => {
                    let name = self.vars[i].name.clone();
                    let confirm = if !self.review {
                        let x = concat("  -> ", value.as_str());
                        concat(x.as_str(), "\n")
                    } else {
                        let unchanged = match current {
                            Some(c) => str_eq(c, value.as_str()),
                            None => false,
                        };
                        if unchanged {
                            owned("")
                        } else {
                            let shown = if CliPrompter::is_sensitive(name.as_str()) {
                                CliPrompter::mask_value(value.as_str())
                            } else {
                                value.clone()
                            };
                            let x = concat("  -> ", shown.as_str());
                            concat(x.as_str(), "\n")
                        }
                    };
                    proof {
                        reveal_strlit("");
                        assert(""@ =~= Seq::<char>::empty());
                    }
                    let ghost vals = self.values@;
                    let ghost vv = value@;
                    self.values.insert(name, value);
                    assert(crate::dotenv::texts(self.values@) =~= crate::dotenv::texts(vals).insert(
                        self.vars@[i as int].name@,
                        vv,
                    ));
                    self.next = i + 1;
                    let q = self.question_now();
                    let r = concat(confirm.as_str(), q.as_str());
                    assert(confirm@ == confirmation(
                        old(self)@.review,
                        old(self)@.vars[i as int].0,
                        old(self)@.vars[i as int].2,
                        vv,
                    ));
                    assert(self@ == (SessionModel {
                        next: old(self)@.next + 1,
                        values: old(self)@.values.insert(old(self)@.vars[i as int].0, vv),
                        ..old(self)@
                    }));
                    r
                },
            }
        } else if self.save.is_none() {
            self.save = Some(CliPrompter::wants_save(input));
            owned("")
        } else {
            owned("")
        }
    }

    /// The values given, and whether to save them (not to, if the session did not finish).
    pub fn into_result(self) -> (r: PromptResult)
        ensures
            crate::dotenv::texts(r.values@) == self@.values,
            r.save == (self@.save == Some(true)),
    {
        let save = match self.save {
            Some(b) => b,
            None => false,
        };
        PromptResult { values: self.values, save }
    }
}

/// Whether the fourth byte of `v` ends a character, or `v` is shorter.
fn masks_whole(v: &str) -> (r: bool)
    ensures
        r == mask_ok(v@),
{
    v.len() <= 4 || v.is_char_boundary(4)
}

} // verus!
