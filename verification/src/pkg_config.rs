//! The pkg-config document: comment stripping, variable expansion, property
//! capture, and the record that a document flattens to.

use crate::pattern::{all_matches, captures, captures_iter, first_match, pattern_accepted};
use crate::table::{distinct_keys, insert, inserted, lemma_inserted};
use crate::text::{
    chars_of, contains, find_in, join, join_lines, join_strings, lemma_contains_prefix,
    lemma_replace_absent, lemma_trim_idempotent, lines, matches_at, occurs_at, replace,
    replace_all, slice_of, split_lines, split_whitespace, split_words, string_of, texts, trim,
    trim_chars,
};
use vstd::prelude::*;

verus! {

/// The most passes that variable expansion makes over one document.
pub const MAX_EXPANSION_PASSES: i32 = 100;

/// What a property's name is followed by in the pattern that captures it: a
/// colon, one or more spaces, and the rest of the line.
pub const PROPERTY_PATTERN_TAIL: &'static str = ":[ ]+(.+)";

/// The pattern of a variable definition: a name, `=`, and a value that runs
/// to the end of the line.
pub const VARIABLE_PATTERN: &'static str = "([a-zA-Z0-9\\-_]+)[ ]*=[ ]*([:a-zA-Z0-9\\-_/=\\.+ ]*)?$";

/// The pattern of one entry of a dependency list: a name, and optionally a
/// comparison operator with, optionally, a version.
pub const DEPENDENCY_PATTERN: &'static str = "([^ ,]+)[ ]*(([<=>!]+)[ ]*([^ ,]+)?)?";

/// What opens a reference to a variable.
pub const REFERENCE_OPEN: &'static str = "${";

/// What closes a reference to a variable.
pub const REFERENCE_CLOSE: &'static str = "}";

/// Why a document could not be parsed.
#[derive(Debug, PartialEq, Eq)]
pub enum ParseError {
    /// The document lacks the named property, which every document must have.
    MissingRequiredProperty(String),
    /// Variable expansion did not come to an end within the allowed passes.
    /// Holds the text as the last pass left it and the variables defined in it.
    VariableExpansionOverflow { text: String, variables: Vec<(String, String)> },
    /// The regular expression engine refused the pattern.
    InvalidPattern(String),
}

/// The mathematical value of a `ParseError`.
pub ghost enum ParseErrorView {
    MissingRequiredProperty(Seq<char>),
    VariableExpansionOverflow { text: Seq<char>, variables: Seq<(Seq<char>, Seq<char>)> },
    InvalidPattern(Seq<char>),
}

impl View for ParseError {
    type V = ParseErrorView;

    open spec fn view(&self) -> ParseErrorView {
        match self {
            ParseError::MissingRequiredProperty(name) => ParseErrorView::MissingRequiredProperty(
                name@,
            ),
            ParseError::VariableExpansionOverflow { text, variables } => {
                ParseErrorView::VariableExpansionOverflow {
                    text: text@,
                    variables: variables.deep_view(),
                }
            },
            ParseError::InvalidPattern(pattern) => ParseErrorView::InvalidPattern(pattern@),
        }
    }
}

/// The definitions of some variables as a document writes them: the name,
/// `=`, and the value.
pub open spec fn definitions(variables: Seq<(Seq<char>, Seq<char>)>) -> Seq<Seq<char>> {
    Seq::new(variables.len(), |i: int| variables[i].0 + "="@ + variables[i].1)
}

impl ParseErrorView {
    /// The error in words.
    pub open spec fn message(self) -> Seq<char> {
        match self {
            ParseErrorView::MissingRequiredProperty(name) => "missing required property `"@ + name
                + "`"@,
            ParseErrorView::VariableExpansionOverflow { text, variables } => {
                "Max recursion hit expanding variables\n\n"@ + text + "\n\n"@ + join(
                    definitions(variables),
                    "\n"@,
                )
            },
            ParseErrorView::InvalidPattern(pattern) => "invalid pattern `"@ + pattern + "`"@,
        }
    }
}

impl ParseError {
    /// The error in words.
    pub fn message(&self) -> (r: String)
        ensures
            r@ == self@.message(),
    {
        match self {
            ParseError::MissingRequiredProperty(name) => String::from_str(
                "missing required property `",
            ).concat(name.as_str()).concat("`"),
            ParseError::VariableExpansionOverflow { text, variables } => {
                let ghost all = definitions(variables.deep_view());
                let mut lines: Vec<String> = Vec::new();
                let mut k: usize = 0;
                assert(lines.deep_view() =~= all.take(0));
                while k < variables.len()
                    invariant
                        k <= variables.len(),
                        all == definitions(variables.deep_view()),
                        lines.deep_view() == all.take(k as int),
                    decreases variables.len() - k,
                {
                    let ghost before = lines.deep_view();
                    let line = variables[k].0.clone().concat("=").concat(variables[k].1.as_str());
                    assert(variables.deep_view()[k as int] == variables@[k as int].deep_view());
                    assert(line@ == all[k as int]);
                    lines.push(line);
                    assert(lines.deep_view() =~= before.push(all[k as int]));
                    assert(before.push(all[k as int]) =~= all.take(k + 1));
                    k += 1;
                }
                assert(all.take(variables.len() as int) =~= all);
                String::from_str("Max recursion hit expanding variables\n\n").concat(
                    text.as_str(),
                ).concat("\n\n").concat(join_strings(&lines, "\n").as_str())
            },
            ParseError::InvalidPattern(pattern) => String::from_str("invalid pattern `").concat(
                pattern.as_str(),
            ).concat("`"),
        }
    }
}

/// Whether a line is a comment: it begins with `#`.
pub open spec fn is_comment(line: Seq<char>) -> bool {
    line.len() > 0 && line[0] == '#'
}

/// The lines that are not comments, in order.
pub open spec fn without_comments(ls: Seq<Seq<char>>) -> Seq<Seq<char>>
    decreases ls.len(),
{
    if ls.len() == 0 {
        Seq::empty()
    } else if is_comment(ls.last()) {
        without_comments(ls.drop_last())
    } else {
        without_comments(ls.drop_last()).push(ls.last())
    }
}

/// The document without its comment lines: the remaining lines, joined by
/// line feeds.
pub open spec fn stripped(data: Seq<char>) -> Seq<char> {
    join_lines(without_comments(lines(data)))
}

/// Removes the comment lines of a document.
pub fn strip_comments(data: &str) -> (r: String)
    ensures
        r@ == stripped(data@),
{
    let text = chars_of(data);
    let ls = split_lines(&text);
    let mut out: Vec<char> = Vec::new();
    let ghost mut kept: Seq<Seq<char>> = Seq::empty();
    let mut first: bool = true;
    let mut k: usize = 0;
    assert(texts(ls@).take(0) =~= Seq::<Seq<char>>::empty());
    while k < ls.len()
        invariant
            k <= ls.len(),
            kept == without_comments(texts(ls@).take(k as int)),
            out@ == join_lines(kept),
            first == (kept.len() == 0),
        decreases ls.len() - k,
    {
        let line = &ls[k];
        proof {
            let upto = texts(ls@).take(k + 1);
            assert(upto.drop_last() =~= texts(ls@).take(k as int));
            assert(upto.last() == line@);
        }
        if !(line.len() > 0 && line[0] == '#') {
            let ghost before = out@;
            if !first {
                out.push('\n');
            }
            let mut j: usize = 0;
            let ghost base = out@;
            while j < line.len()
                invariant
                    j <= line.len(),
                    out@ == base + line@.take(j as int),
                decreases line.len() - j,
            {
                out.push(line[j]);
                assert(out@ =~= base + line@.take(j + 1));
                j += 1;
            }
            proof {
                assert(line@.take(line.len() as int) =~= line@);
                let next = kept.push(line@);
                assert(next.drop_last() =~= kept);
                if first {
                    assert(base + line@ =~= line@);
                } else {
                    assert(base =~= before + seq!['\n']);
                }
                kept = next;
            }
            first = false;
        }
        k += 1;
    }
    assert(texts(ls@).take(ls.len() as int) =~= texts(ls@));
    string_of(&out)
}

/// The pattern that captures the property `name`.
pub open spec fn property_pattern(name: Seq<char>) -> Seq<char> {
    name + PROPERTY_PATTERN_TAIL@
}

/// What a search for a property yields: the first group of the match,
/// trimmed; nothing where there is no match or no such group.
pub open spec fn captured(found: Option<Seq<Option<Seq<char>>>>) -> Option<Seq<char>> {
    match found {
        Some(groups) => if groups.len() > 1 && groups[1] is Some {
            Some(trim(groups[1]->Some_0))
        } else {
            None
        },
        None => None,
    }
}

/// The value of a property from what a search for it found.
pub fn property_from_captures(found: &Option<Vec<Option<String>>>) -> (r: Option<String>)
    ensures
        r.deep_view() == captured(found.deep_view()),
{
    match found {
        Some(groups) => {
            if groups.len() > 1 {
                assert(found.deep_view()->Some_0[1] == groups@[1].deep_view());
                match &groups[1] {
                    Some(value) => {
                        let text = chars_of(value.as_str());
                        let trimmed = trim_chars(&text);
                        Some(string_of(&trimmed))
                    },
                    None => None,
                }
            } else {
                None
            }
        },
        None => None,
    }
}

/// The value of the property `name` in `data`: what follows the first
/// `name:` that one or more spaces and a non-empty rest of line follow,
/// trimmed. Fails only where the pattern made of `name` is refused.
pub fn capture_property(name: &str, data: &str) -> (r: Result<Option<String>, ParseError>)
    ensures
        match r {
            Ok(value) => pattern_accepted(property_pattern(name@)) && value.deep_view() == captured(
                first_match(property_pattern(name@), data@),
            ),
            Err(e) => !pattern_accepted(property_pattern(name@)) && e@
                == ParseErrorView::InvalidPattern(property_pattern(name@)),
        },
{
    let pattern = String::from_str(name).concat(PROPERTY_PATTERN_TAIL);
    match captures(pattern.as_str(), data) {
        Ok(found) => Ok(property_from_captures(&found)),
        Err(_) => Err(ParseError::InvalidPattern(pattern)),
    }
}

/// The variables of a document: each name once, with its value, in the order
/// in which the names first appear.
pub type Variables = Seq<(Seq<char>, Seq<char>)>;

/// The definition that a match of the variable pattern stands for: the first
/// group is the name, the second the value, empty where it is missing.
pub open spec fn definition(groups: Seq<Option<Seq<char>>>) -> Option<(Seq<char>, Seq<char>)> {
    if groups.len() > 1 && groups[1] is Some {
        Some(
            (
                groups[1]->Some_0,
                if groups.len() > 2 && groups[2] is Some {
                    groups[2]->Some_0
                } else {
                    Seq::empty()
                },
            ),
        )
    } else {
        None
    }
}

/// `vars` after the definitions that `found` stands for, in order.
pub open spec fn with_definitions(vars: Variables, found: Seq<Seq<Option<Seq<char>>>>) -> Variables
    decreases found.len(),
{
    if found.len() == 0 {
        vars
    } else {
        let init = with_definitions(vars, found.drop_last());
        match definition(found.last()) {
            Some((name, value)) => inserted(init, name, value),
            None => init,
        }
    }
}

/// The variables that the lines `ls` define, each line searched on its own.
pub open spec fn variables_of_lines(ls: Seq<Seq<char>>) -> Variables
    decreases ls.len(),
{
    if ls.len() == 0 {
        Seq::empty()
    } else {
        with_definitions(
            variables_of_lines(ls.drop_last()),
            all_matches(VARIABLE_PATTERN@, ls.last()),
        )
    }
}

/// The variables that a document defines.
pub open spec fn variables(data: Seq<char>) -> Variables {
    variables_of_lines(lines(data))
}

/// No variable is recorded twice.
pub proof fn lemma_with_definitions_distinct(
    vars: Variables,
    found: Seq<Seq<Option<Seq<char>>>>,
)
    requires
        distinct_keys(vars),
    ensures
        distinct_keys(with_definitions(vars, found)),
    decreases found.len(),
{
    if found.len() > 0 {
        let init = with_definitions(vars, found.drop_last());
        lemma_with_definitions_distinct(vars, found.drop_last());
        match definition(found.last()) {
            Some((name, value)) => {
                lemma_inserted(init, name, value);
            },
            None => {},
        }
    }
}

/// No variable of a document is recorded twice.
pub proof fn lemma_variables_distinct(data: Seq<char>)
    ensures
        distinct_keys(variables(data)),
{
    lemma_variables_of_lines_distinct(lines(data));
}

/// No variable of some lines is recorded twice.
pub proof fn lemma_variables_of_lines_distinct(ls: Seq<Seq<char>>)
    ensures
        distinct_keys(variables_of_lines(ls)),
    decreases ls.len(),
{
    if ls.len() > 0 {
        lemma_variables_of_lines_distinct(ls.drop_last());
        lemma_with_definitions_distinct(
            variables_of_lines(ls.drop_last()),
            all_matches(VARIABLE_PATTERN@, ls.last()),
        );
    }
}

/// Whether the search for variables in `data` fails: it does where there is
/// a line to search and the variable pattern is refused.
pub open spec fn variables_fail(data: Seq<char>) -> bool {
    lines(data).len() > 0 && !pattern_accepted(VARIABLE_PATTERN@)
}

/// Records the definitions that the matches `found` stand for.
pub fn define_from_matches(vars: &mut Vec<(String, String)>, found: &Vec<Vec<Option<String>>>)
    ensures
        final(vars).deep_view() == with_definitions(old(vars).deep_view(), found.deep_view()),
{
    let ghost before = vars.deep_view();
    let ghost all = found.deep_view();
    let mut k: usize = 0;
    assert(all.take(0) =~= Seq::empty());
    while k < found.len()
        invariant
            k <= found.len(),
            all == found.deep_view(),
            vars.deep_view() == with_definitions(before, all.take(k as int)),
        decreases found.len() - k,
    {
        let groups = &found[k];
        proof {
            let upto = all.take(k + 1);
            assert(upto.drop_last() =~= all.take(k as int));
            assert(upto.last() == groups.deep_view());
            if groups.len() > 1 {
                assert(groups.deep_view()[1] == groups@[1].deep_view());
            }
            if groups.len() > 2 {
                assert(groups.deep_view()[2] == groups@[2].deep_view());
            }
        }
        if groups.len() > 1 {
            match &groups[1] {
                Some(name) => {
                    let value = if groups.len() > 2 {
                        match &groups[2] {
                            Some(value) => value.clone(),
                            None => String::new(),
                        }
                    } else {
                        String::new()
                    };
                    insert(vars, name.clone(), value);
                },
                None => {},
            }
        }
        k += 1;
    }
    assert(all.take(found.len() as int) =~= all);
}

/// The variables that a document defines. Each line is searched on its own
/// for the variable pattern; a name defined twice keeps its last value.
pub fn parse_variables(data: &str) -> (r: Result<Vec<(String, String)>, ParseError>)
    ensures
        match r {
            Ok(vars) => {
                &&& !variables_fail(data@)
                &&& vars.deep_view() == variables(data@)
                &&& distinct_keys(vars.deep_view())
            },
            Err(e) => variables_fail(data@) && e@ == ParseErrorView::InvalidPattern(
                VARIABLE_PATTERN@,
            ),
        },
{
    let text = chars_of(data);
    let ls = split_lines(&text);
    let mut vars: Vec<(String, String)> = Vec::new();
    let mut k: usize = 0;
    assert(texts(ls@).take(0) =~= Seq::<Seq<char>>::empty());
    assert(vars.deep_view() =~= Seq::empty());
    while k < ls.len()
        invariant
            k <= ls.len(),
            texts(ls@) == lines(data@),
            k > 0 ==> pattern_accepted(VARIABLE_PATTERN@),
            vars.deep_view() == variables_of_lines(texts(ls@).take(k as int)),
        decreases ls.len() - k,
    {
        let line = string_of(&ls[k]);
        proof {
            let upto = texts(ls@).take(k + 1);
            assert(upto.drop_last() =~= texts(ls@).take(k as int));
            assert(upto.last() == line@);
        }
        match captures_iter(VARIABLE_PATTERN, line.as_str()) {
            Ok(found) => {
                define_from_matches(&mut vars, &found);
            },
            Err(_) => {
                return Err(ParseError::InvalidPattern(String::from_str(VARIABLE_PATTERN)));
            },
        }
        k += 1;
    }
    assert(texts(ls@).take(ls.len() as int) =~= texts(ls@));
    proof {
        lemma_variables_distinct(data@);
    }
    Ok(vars)
}

/// The reference to the variable `name`, as it stands in a document.
pub open spec fn reference(name: Seq<char>) -> Seq<char> {
    REFERENCE_OPEN@ + name + REFERENCE_CLOSE@
}

/// `text` after one pass: for each variable in turn, every reference to it
/// replaced by its value.
pub open spec fn substituted(text: Seq<char>, vars: Variables) -> Seq<char>
    decreases vars.len(),
{
    if vars.len() == 0 {
        text
    } else {
        replace_all(
            substituted(text, vars.drop_last()),
            reference(vars.last().0),
            vars.last().1,
        )
    }
}

/// Makes one pass over `text`.
pub fn substitute(text: Vec<char>, vars: &Vec<(String, String)>) -> (r: Vec<char>)
    ensures
        r@ == substituted(text@, vars.deep_view()),
{
    let ghost all = vars.deep_view();
    let ghost start = text@;
    let mut text = text;
    let mut k: usize = 0;
    assert(all.take(0) =~= Seq::empty());
    while k < vars.len()
        invariant
            k <= vars.len(),
            all == vars.deep_view(),
            text@ == substituted(start, all.take(k as int)),
        decreases vars.len() - k,
    {
        let from = String::from_str(REFERENCE_OPEN).concat(vars[k].0.as_str()).concat(
            REFERENCE_CLOSE,
        );
        let from = chars_of(from.as_str());
        let to = chars_of(vars[k].1.as_str());
        proof {
            let upto = all.take(k + 1);
            assert(upto.drop_last() =~= all.take(k as int));
            assert(upto.last() == vars@[k as int].deep_view());
        }
        text = replace(&text, &from, &to);
        k += 1;
    }
    assert(all.take(vars.len() as int) =~= all);
    text
}

/// What expansion makes of `data` when `index` passes have been made
/// already. A text that holds no reference is the result. Of any other
/// text a pass is made, unless the cap is reached, and expansion goes on
/// with what the pass gave. Each pass reads the variables anew from the
/// text as it then stands.
pub open spec fn expanded(data: Seq<char>, index: int) -> Result<Seq<char>, ParseErrorView>
    decreases MAX_EXPANSION_PASSES - index,
{
    if !contains(data, REFERENCE_OPEN@) {
        Ok(data)
    } else if variables_fail(data) {
        Err(ParseErrorView::InvalidPattern(VARIABLE_PATTERN@))
    } else if index >= MAX_EXPANSION_PASSES {
        Err(ParseErrorView::VariableExpansionOverflow { text: data, variables: variables(data) })
    } else {
        expanded(substituted(data, variables(data)), index + 1)
    }
}

/// The mathematical value of what expansion returns.
pub open spec fn expansion_view(r: Result<String, ParseError>) -> Result<
    Seq<char>,
    ParseErrorView,
> {
    match r {
        Ok(text) => Ok(text@),
        Err(e) => Err(e@),
    }
}

/// Replaces the references to variables in `data` by their values, pass
/// after pass, until none is left. `index` counts the passes made so far;
/// a caller starts with 0. A text without a reference is returned as it is.
pub fn expand_variables(data: &str, index: i32) -> (r: Result<String, ParseError>)
    ensures
        expansion_view(r) == expanded(data@, index as int),
    decreases MAX_EXPANSION_PASSES - index,
{
    let text = chars_of(data);
    let open = chars_of(REFERENCE_OPEN);
    if !find_in(&text, &open) {
        return Ok(String::from_str(data));
    }
    let vars = match parse_variables(data) {
        Ok(vars) => vars,
        Err(e) => {
            return Err(e);
        },
    };
    if index >= MAX_EXPANSION_PASSES {
        return Err(
            ParseError::VariableExpansionOverflow { text: String::from_str(data), variables: vars },
        );
    }
    let next = string_of(&substitute(text, &vars));
    expand_variables(next.as_str(), index + 1)
}

/// A pass changes nothing in a text that holds no reference.
pub proof fn lemma_substituted_without_reference(text: Seq<char>, vars: Variables)
    requires
        !contains(text, REFERENCE_OPEN@),
    ensures
        substituted(text, vars) == text,
    decreases vars.len(),
{
    if vars.len() > 0 {
        lemma_substituted_without_reference(text, vars.drop_last());
        let name = vars.last().0;
        if contains(text, reference(name)) {
            assert(reference(name) =~= REFERENCE_OPEN@ + (name + REFERENCE_CLOSE@));
            lemma_contains_prefix(text, REFERENCE_OPEN@, name + REFERENCE_CLOSE@);
        }
        lemma_replace_absent(text, reference(name), vars.last().1);
    }
}

/// Expansion returns a text that holds no reference as it is.
pub proof fn lemma_expansion_keeps_expanded(data: Seq<char>, index: int)
    requires
        !contains(data, REFERENCE_OPEN@),
    ensures
        expanded(data, index) == Ok::<Seq<char>, ParseErrorView>(data),
{
}

/// A text that holds a reference and that a pass leaves as it is never
/// expands: whatever the number of passes made so far, the cap is reached,
/// and the error holds the text and its variables. Such is a text whose
/// variables are defined in a circle.
pub proof fn lemma_unchanging_text_overflows(data: Seq<char>, index: int)
    requires
        contains(data, REFERENCE_OPEN@),
        substituted(data, variables(data)) == data,
        !variables_fail(data),
    ensures
        expanded(data, index) == Err::<Seq<char>, ParseErrorView>(
            ParseErrorView::VariableExpansionOverflow { text: data, variables: variables(data) },
        ),
    decreases MAX_EXPANSION_PASSES - index,
{
    if index < MAX_EXPANSION_PASSES {
        lemma_unchanging_text_overflows(data, index + 1);
    }
}

/// Expansion fails only of a text that holds a reference, and then because
/// the cap was reached or because the variable pattern was refused.
pub proof fn lemma_expansion_fails_of_references(data: Seq<char>, index: int)
    requires
        expanded(data, index) is Err,
    ensures
        contains(data, REFERENCE_OPEN@),
        expanded(data, index)->Err_0 is VariableExpansionOverflow || expanded(data, index)->Err_0
            == ParseErrorView::InvalidPattern(VARIABLE_PATTERN@),
    decreases MAX_EXPANSION_PASSES - index,
{
    if !variables_fail(data) && index < MAX_EXPANSION_PASSES {
        lemma_expansion_fails_of_references(substituted(data, variables(data)), index + 1);
    }
}

/// What expansion returns holds no reference.
pub proof fn lemma_expanded_holds_no_reference(data: Seq<char>, index: int)
    requires
        expanded(data, index) is Ok,
    ensures
        !contains(expanded(data, index)->Ok_0, REFERENCE_OPEN@),
    decreases MAX_EXPANSION_PASSES - index,
{
    if contains(data, REFERENCE_OPEN@) {
        lemma_expanded_holds_no_reference(substituted(data, variables(data)), index + 1);
    }
}

/// Expansion is idempotent: run from the start on what it returned, it
/// returns the same text.
pub proof fn lemma_expansion_idempotent(data: Seq<char>, index: int)
    requires
        expanded(data, index) is Ok,
    ensures
        expanded(expanded(data, index)->Ok_0, 0) == expanded(data, index),
{
    lemma_expanded_holds_no_reference(data, index);
    lemma_expansion_keeps_expanded(expanded(data, index)->Ok_0, 0);
}

/// The items of `data` that begin with `flag`, each without it, in order.
pub open spec fn flagged(data: Seq<Seq<char>>, flag: Seq<char>) -> Seq<Seq<char>>
    decreases data.len(),
{
    if data.len() == 0 {
        Seq::empty()
    } else if occurs_at(data.last(), flag, 0) {
        flagged(data.drop_last(), flag).push(data.last().skip(flag.len() as int))
    } else {
        flagged(data.drop_last(), flag)
    }
}

/// Whether `item` begins with one of `flags`.
pub open spec fn begins_with_any(item: Seq<char>, flags: Seq<Seq<char>>) -> bool {
    exists|i: int| 0 <= i < flags.len() && occurs_at(item, #[trigger] flags[i], 0)
}

/// The items of `data` that begin with none of `flags`, in order.
pub open spec fn unflagged(data: Seq<Seq<char>>, flags: Seq<Seq<char>>) -> Seq<Seq<char>>
    decreases data.len(),
{
    if data.len() == 0 {
        Seq::empty()
    } else if begins_with_any(data.last(), flags) {
        unflagged(data.drop_last(), flags)
    } else {
        unflagged(data.drop_last(), flags).push(data.last())
    }
}

/// The items that begin with `flag`, each without it.
pub fn filter_flag(data: &[String], flag: &str) -> (r: Vec<String>)
    ensures
        r.deep_view() == flagged(data.deep_view(), flag@),
{
    let ghost all = data.deep_view();
    let prefix = chars_of(flag);
    let mut out: Vec<String> = Vec::new();
    let mut k: usize = 0;
    assert(all.take(0) =~= Seq::empty());
    assert(out.deep_view() =~= Seq::empty());
    while k < data.len()
        invariant
            k <= data.len(),
            all == data.deep_view(),
            prefix@ == flag@,
            out.deep_view() == flagged(all.take(k as int), flag@),
        decreases data.len() - k,
    {
        let item = chars_of(data[k].as_str());
        proof {
            let upto = all.take(k + 1);
            assert(upto.drop_last() =~= all.take(k as int));
            assert(upto.last() == item@);
        }
        if matches_at(&item, &prefix, 0) {
            let rest = string_of(&slice_of(&item, prefix.len(), item.len()));
            let ghost before = out.deep_view();
            out.push(rest);
            assert(out.deep_view() =~= before.push(item@.skip(flag@.len() as int)));
        }
        k += 1;
    }
    assert(all.take(data.len() as int) =~= all);
    out
}

/// The items that begin with none of `flags`.
pub fn filter_excluding_flags(data: &[String], flags: &[&str]) -> (r: Vec<String>)
    ensures
        r.deep_view() == unflagged(data.deep_view(), flags.deep_view()),
{
    let ghost all = data.deep_view();
    let ghost prefixes = flags.deep_view();
    let mut out: Vec<String> = Vec::new();
    let mut k: usize = 0;
    assert(all.take(0) =~= Seq::empty());
    assert(out.deep_view() =~= Seq::empty());
    while k < data.len()
        invariant
            k <= data.len(),
            all == data.deep_view(),
            prefixes == flags.deep_view(),
            out.deep_view() == unflagged(all.take(k as int), prefixes),
        decreases data.len() - k,
    {
        let item = chars_of(data[k].as_str());
        proof {
            let upto = all.take(k + 1);
            assert(upto.drop_last() =~= all.take(k as int));
            assert(upto.last() == item@);
        }
        let mut begins: bool = false;
        let mut j: usize = 0;
        while j < flags.len() && !begins
            invariant
                j <= flags.len(),
                prefixes == flags.deep_view(),
                begins ==> begins_with_any(item@, prefixes),
                !begins ==> forall|i: int| 0 <= i < j ==> !occurs_at(item@, #[trigger] prefixes[i], 0),
            decreases flags.len() - j + if begins { 0int } else { 1int },
        {
            let prefix = chars_of(flags[j]);
            assert(prefixes[j as int] == prefix@);
            if matches_at(&item, &prefix, 0) {
                begins = true;
            } else {
                j += 1;
            }
        }
        if !begins {
            let ghost before = out.deep_view();
            out.push(data[k].clone());
            assert(out.deep_view() =~= before.push(item@));
        }
        k += 1;
    }
    assert(all.take(data.len() as int) =~= all);
    out
}

/// The words of `value` in three parts: those that begin with `first`,
/// without it; those that begin with `second`, without it; and the others.
pub fn split_flags(value: &str, first: &str, second: &str) -> (r: (
    Vec<String>,
    Vec<String>,
    Vec<String>,
))
    ensures
        r.0.deep_view() == flagged(split_whitespace(value@), first@),
        r.1.deep_view() == flagged(split_whitespace(value@), second@),
        r.2.deep_view() == unflagged(split_whitespace(value@), seq![first@, second@]),
{
    let words = split_words(&chars_of(value));
    let mut tokens: Vec<String> = Vec::new();
    let mut k: usize = 0;
    assert(tokens.deep_view() =~= texts(words@).take(0));
    while k < words.len()
        invariant
            k <= words.len(),
            tokens.deep_view() == texts(words@).take(k as int),
        decreases words.len() - k,
    {
        let ghost before = tokens.deep_view();
        tokens.push(string_of(&words[k]));
        assert(tokens.deep_view() =~= before.push(words@[k as int]@));
        assert(before.push(words@[k as int]@) =~= texts(words@).take(k + 1));
        k += 1;
    }
    assert(texts(words@).take(words.len() as int) =~= texts(words@));
    let mut flags: Vec<&str> = Vec::new();
    flags.push(first);
    flags.push(second);
    let both = flags.as_slice();
    assert(both.deep_view() =~= seq![first@, second@]);
    (
        filter_flag(tokens.as_slice(), first),
        filter_flag(tokens.as_slice(), second),
        filter_excluding_flags(tokens.as_slice(), both),
    )
}

/// One entry of a dependency list: a package, and optionally the versions of
/// it that are meant.
#[derive(Default, Debug, PartialEq, Eq)]
pub struct Dependency {
    pub name: String,
    pub op: Option<String>,
    pub version: Option<String>,
}

/// The mathematical value of a `Dependency`.
pub ghost struct DependencyView {
    pub name: Seq<char>,
    pub op: Option<Seq<char>>,
    pub version: Option<Seq<char>>,
}

impl View for Dependency {
    type V = DependencyView;

    open spec fn view(&self) -> DependencyView {
        DependencyView { name: self.name@, op: self.op.deep_view(), version: self.version.deep_view() }
    }
}

impl DeepView for Dependency {
    type V = DependencyView;

    open spec fn deep_view(&self) -> DependencyView {
        self@
    }
}

/// Group `i` of a match; nothing where the match has no such group or the
/// group took no part in it.
pub open spec fn group(groups: Seq<Option<Seq<char>>>, i: int) -> Option<Seq<char>> {
    if 0 <= i < groups.len() {
        groups[i]
    } else {
        None
    }
}

/// The entry that a match of the dependency pattern stands for: group 1 is
/// the name, group 3 the operator, group 4 the version. An operator counts
/// only where a version follows it, and a version only where an operator
/// stands before it. A match without a name stands for none.
pub open spec fn dependency(groups: Seq<Option<Seq<char>>>) -> Option<DependencyView> {
    match group(groups, 1) {
        Some(name) => Some(
            match (group(groups, 3), group(groups, 4)) {
                (Some(op), Some(version)) => DependencyView {
                    name,
                    op: Some(op),
                    version: Some(version),
                },
                _ => DependencyView { name, op: None, version: None },
            },
        ),
        None => None,
    }
}

impl DependencyView {
    /// The entry is a name alone, or a name with an operator and a version.
    pub open spec fn well_formed(self) -> bool {
        self.op is Some <==> self.version is Some
    }
}

/// Every entry that matches stand for is a name alone, or a name with an
/// operator and a version.
pub proof fn lemma_dependencies_well_formed(found: Seq<Seq<Option<Seq<char>>>>)
    ensures
        forall|i: int|
            0 <= i < dependencies(found).len() ==> (#[trigger] dependencies(found)[i]).well_formed(),
    decreases found.len(),
{
    if found.len() > 0 {
        lemma_dependencies_well_formed(found.drop_last());
        let init = dependencies(found.drop_last());
        let all = dependencies(found);
        assert forall|i: int| 0 <= i < all.len() implies (#[trigger] all[i]).well_formed() by {
            if i < init.len() {
                assert(all[i] == init[i]);
            } else {
                assert(all[i] == dependency(found.last())->Some_0);
            }
        }
    }
}

/// The entries that the matches `found` stand for, in order.
pub open spec fn dependencies(found: Seq<Seq<Option<Seq<char>>>>) -> Seq<DependencyView>
    decreases found.len(),
{
    if found.len() == 0 {
        Seq::empty()
    } else {
        match dependency(found.last()) {
            Some(entry) => dependencies(found.drop_last()).push(entry),
            None => dependencies(found.drop_last()),
        }
    }
}

/// Group `i` of a match.
pub fn group_of(groups: &Vec<Option<String>>, i: usize) -> (r: Option<String>)
    ensures
        r.deep_view() == group(groups.deep_view(), i as int),
{
    if i < groups.len() {
        assert(groups.deep_view()[i as int] == groups@[i as int].deep_view());
        match &groups[i] {
            Some(text) => Some(text.clone()),
            None => None,
        }
    } else {
        None
    }
}

impl Dependency {
    /// The entry that a match of the dependency pattern stands for.
    pub fn from_captures(groups: &Vec<Option<String>>) -> (r: Option<Dependency>)
        ensures
            r.deep_view() == dependency(groups.deep_view()),
            r is Some ==> r->Some_0@.well_formed(),
    {
        match group_of(groups, 1) {
            Some(name) => Some(
                match (group_of(groups, 3), group_of(groups, 4)) {
                    (Some(op), Some(version)) => Dependency {
                        name,
                        op: Some(op),
                        version: Some(version),
                    },
                    _ => Dependency { name, op: None, version: None },
                },
            ),
            None => None,
        }
    }

    /// The entries that the matches `found` stand for.
    pub fn list_from_matches(found: &Vec<Vec<Option<String>>>) -> (r: Vec<Dependency>)
        ensures
            r.deep_view() == dependencies(found.deep_view()),
            forall|i: int| 0 <= i < r.len() ==> (#[trigger] r.deep_view()[i]).well_formed(),
    {
        proof {
            lemma_dependencies_well_formed(found.deep_view());
        }
        let ghost all = found.deep_view();
        let mut out: Vec<Dependency> = Vec::new();
        let mut k: usize = 0;
        assert(all.take(0) =~= Seq::empty());
        assert(out.deep_view() =~= Seq::empty());
        while k < found.len()
            invariant
                k <= found.len(),
                all == found.deep_view(),
                out.deep_view() == dependencies(all.take(k as int)),
            decreases found.len() - k,
        {
            proof {
                let upto = all.take(k + 1);
                assert(upto.drop_last() =~= all.take(k as int));
                assert(upto.last() == found@[k as int].deep_view());
            }
            match Dependency::from_captures(&found[k]) {
                Some(entry) => {
                    let ghost before = out.deep_view();
                    let ghost value = entry@;
                    out.push(entry);
                    assert(out.deep_view() =~= before.push(value));
                },
                None => {},
            }
            k += 1;
        }
        assert(all.take(found.len() as int) =~= all);
        out
    }

    /// The entries of a dependency list: names separated by spaces or
    /// commas, each optionally followed by a comparison operator and a
    /// version. Fails only where the dependency pattern is refused.
    pub fn parse_list(data: &str) -> (r: Result<Vec<Dependency>, ParseError>)
        ensures
            match r {
                Ok(list) => {
                    &&& pattern_accepted(DEPENDENCY_PATTERN@)
                    &&& list.deep_view() == dependencies(all_matches(DEPENDENCY_PATTERN@, data@))
                    &&& forall|i: int|
                        0 <= i < list.len() ==> (#[trigger] list.deep_view()[i]).well_formed()
                },
                Err(e) => !pattern_accepted(DEPENDENCY_PATTERN@) && e@
                    == ParseErrorView::InvalidPattern(DEPENDENCY_PATTERN@),
            },
    {
        match captures_iter(DEPENDENCY_PATTERN, data) {
            Ok(found) => Ok(Dependency::list_from_matches(&found)),
            Err(_) => Err(ParseError::InvalidPattern(String::from_str(DEPENDENCY_PATTERN))),
        }
    }
}

/// The record that one document flattens to.
#[derive(Default, Debug, PartialEq, Eq)]
pub struct PkgConfigFile {
    pub name: String,
    pub version: String,
    pub description: String,
    pub url: Option<String>,
    pub includes: Vec<String>,
    pub definitions: Vec<String>,
    pub compile_flags: Vec<String>,
    pub cflags_private: Option<String>,
    pub copyright: Option<String>,
    pub link_locations: Vec<String>,
    pub link_libraries: Vec<String>,
    pub link_flags: Vec<String>,
    pub libs_private: Option<String>,
    pub license: Option<String>,
    pub maintainer: Option<String>,
    pub requires: Vec<Dependency>,
    pub requires_private: Vec<Dependency>,
    pub conflicts: Vec<Dependency>,
    pub provides: Vec<Dependency>,
}

/// The mathematical value of a `PkgConfigFile`.
pub ghost struct PkgConfigFileView {
    pub name: Seq<char>,
    pub version: Seq<char>,
    pub description: Seq<char>,
    pub url: Option<Seq<char>>,
    pub includes: Seq<Seq<char>>,
    pub definitions: Seq<Seq<char>>,
    pub compile_flags: Seq<Seq<char>>,
    pub cflags_private: Option<Seq<char>>,
    pub copyright: Option<Seq<char>>,
    pub link_locations: Seq<Seq<char>>,
    pub link_libraries: Seq<Seq<char>>,
    pub link_flags: Seq<Seq<char>>,
    pub libs_private: Option<Seq<char>>,
    pub license: Option<Seq<char>>,
    pub maintainer: Option<Seq<char>>,
    pub requires: Seq<DependencyView>,
    pub requires_private: Seq<DependencyView>,
    pub conflicts: Seq<DependencyView>,
    pub provides: Seq<DependencyView>,
}

impl View for PkgConfigFile {
    type V = PkgConfigFileView;

    open spec fn view(&self) -> PkgConfigFileView {
        PkgConfigFileView {
            name: self.name@,
            version: self.version@,
            description: self.description@,
            url: self.url.deep_view(),
            includes: self.includes.deep_view(),
            definitions: self.definitions.deep_view(),
            compile_flags: self.compile_flags.deep_view(),
            cflags_private: self.cflags_private.deep_view(),
            copyright: self.copyright.deep_view(),
            link_locations: self.link_locations.deep_view(),
            link_libraries: self.link_libraries.deep_view(),
            link_flags: self.link_flags.deep_view(),
            libs_private: self.libs_private.deep_view(),
            license: self.license.deep_view(),
            maintainer: self.maintainer.deep_view(),
            requires: self.requires.deep_view(),
            requires_private: self.requires_private.deep_view(),
            conflicts: self.conflicts.deep_view(),
            provides: self.provides.deep_view(),
        }
    }
}

/// The value of the property `name` in `text`.
pub open spec fn property(name: Seq<char>, text: Seq<char>) -> Option<Seq<char>> {
    captured(first_match(property_pattern(name), text))
}

/// Whether the pattern that captures the property `name` is refused.
pub open spec fn refused(name: Seq<char>) -> bool {
    !pattern_accepted(property_pattern(name))
}

/// What was found of each property that a document may hold.
#[derive(Default, Debug, PartialEq, Eq)]
pub struct Properties {
    /// What was found of `Name`.
    pub name: Option<String>,
    /// What was found of `Version`.
    pub version: Option<String>,
    /// What was found of `Description`.
    pub description: Option<String>,
    /// What was found of `URL`.
    pub url: Option<String>,
    /// What was found of `Cflags`.
    pub cflags: Option<String>,
    /// What was found of `Cflags.private`.
    pub cflags_private: Option<String>,
    /// What was found of `Copyright`.
    pub copyright: Option<String>,
    /// What was found of `Libs`.
    pub libs: Option<String>,
    /// What was found of `Libs.private`.
    pub libs_private: Option<String>,
    /// What was found of `License`.
    pub license: Option<String>,
    /// What was found of `Maintainer`.
    pub maintainer: Option<String>,
    /// What was found of `Requires`.
    pub requires: Option<String>,
    /// What was found of `Requires.private`.
    pub requires_private: Option<String>,
    /// What was found of `Conflicts`.
    pub conflicts: Option<String>,
    /// What was found of `Provides`.
    pub provides: Option<String>,
}

/// The mathematical value of a `Properties`.
pub ghost struct PropertiesView {
    pub name: Option<Seq<char>>,
    pub version: Option<Seq<char>>,
    pub description: Option<Seq<char>>,
    pub url: Option<Seq<char>>,
    pub cflags: Option<Seq<char>>,
    pub cflags_private: Option<Seq<char>>,
    pub copyright: Option<Seq<char>>,
    pub libs: Option<Seq<char>>,
    pub libs_private: Option<Seq<char>>,
    pub license: Option<Seq<char>>,
    pub maintainer: Option<Seq<char>>,
    pub requires: Option<Seq<char>>,
    pub requires_private: Option<Seq<char>>,
    pub conflicts: Option<Seq<char>>,
    pub provides: Option<Seq<char>>,
}

impl View for Properties {
    type V = PropertiesView;

    open spec fn view(&self) -> PropertiesView {
        PropertiesView {
            name: self.name.deep_view(),
            version: self.version.deep_view(),
            description: self.description.deep_view(),
            url: self.url.deep_view(),
            cflags: self.cflags.deep_view(),
            cflags_private: self.cflags_private.deep_view(),
            copyright: self.copyright.deep_view(),
            libs: self.libs.deep_view(),
            libs_private: self.libs_private.deep_view(),
            license: self.license.deep_view(),
            maintainer: self.maintainer.deep_view(),
            requires: self.requires.deep_view(),
            requires_private: self.requires_private.deep_view(),
            conflicts: self.conflicts.deep_view(),
            provides: self.provides.deep_view(),
        }
    }
}

/// The properties of `text`.
pub open spec fn properties_of(text: Seq<char>) -> PropertiesView {
    PropertiesView {
        name: property("Name"@, text),
        version: property("Version"@, text),
        description: property("Description"@, text),
        url: property("URL"@, text),
        cflags: property("Cflags"@, text),
        cflags_private: property("Cflags.private"@, text),
        copyright: property("Copyright"@, text),
        libs: property("Libs"@, text),
        libs_private: property("Libs.private"@, text),
        license: property("License"@, text),
        maintainer: property("Maintainer"@, text),
        requires: property("Requires"@, text),
        requires_private: property("Requires.private"@, text),
        conflicts: property("Conflicts"@, text),
        provides: property("Provides"@, text),
    }
}

/// The first property, in the order in which they are searched, whose
/// pattern is refused.
pub open spec fn first_refused() -> Option<Seq<char>> {
    if refused("Name"@) {
        Some("Name"@)
    } else if refused("Version"@) {
        Some("Version"@)
    } else if refused("Description"@) {
        Some("Description"@)
    } else if refused("URL"@) {
        Some("URL"@)
    } else if refused("Cflags"@) {
        Some("Cflags"@)
    } else if refused("Cflags.private"@) {
        Some("Cflags.private"@)
    } else if refused("Copyright"@) {
        Some("Copyright"@)
    } else if refused("Libs"@) {
        Some("Libs"@)
    } else if refused("Libs.private"@) {
        Some("Libs.private"@)
    } else if refused("License"@) {
        Some("License"@)
    } else if refused("Maintainer"@) {
        Some("Maintainer"@)
    } else if refused("Requires"@) {
        Some("Requires"@)
    } else if refused("Requires.private"@) {
        Some("Requires.private"@)
    } else if refused("Conflicts"@) {
        Some("Conflicts"@)
    } else if refused("Provides"@) {
        Some("Provides"@)
    } else {
        None
    }
}

/// Whether the regular expression engine accepts every pattern that a
/// record is read with.
pub open spec fn grammar_accepted() -> bool {
    &&& !refused("Name"@)
    &&& !refused("Version"@)
    &&& !refused("Description"@)
    &&& !refused("URL"@)
    &&& !refused("Cflags"@)
    &&& !refused("Cflags.private"@)
    &&& !refused("Copyright"@)
    &&& !refused("Libs"@)
    &&& !refused("Libs.private"@)
    &&& !refused("License"@)
    &&& !refused("Maintainer"@)
    &&& !refused("Requires"@)
    &&& !refused("Requires.private"@)
    &&& !refused("Conflicts"@)
    &&& !refused("Provides"@)
    &&& pattern_accepted(DEPENDENCY_PATTERN@)
}

/// The value of a property that may be missing: empty where it is.
pub open spec fn or_empty(value: Option<Seq<char>>) -> Seq<char> {
    match value {
        Some(text) => text,
        None => Seq::empty(),
    }
}

/// The entries of the dependency list `value`.
pub open spec fn dependency_list(value: Seq<char>) -> Seq<DependencyView> {
    dependencies(all_matches(DEPENDENCY_PATTERN@, value))
}

/// The record that properties and dependency lists make, or the first of
/// `Name`, `Version` and `Description` that is missing. The words of
/// `Cflags` go to `includes` (`-I`), `definitions` (`-D`) and
/// `compile_flags`; those of `Libs` to `link_locations` (`-L`),
/// `link_libraries` (`-l`) and `link_flags`.
pub open spec fn assembled(
    properties: PropertiesView,
    needs: Seq<DependencyView>,
    needs_private: Seq<DependencyView>,
    conflicts: Seq<DependencyView>,
    provides: Seq<DependencyView>,
) -> Result<PkgConfigFileView, ParseErrorView> {
    let cflags = split_whitespace(or_empty(properties.cflags));
    let libs = split_whitespace(or_empty(properties.libs));
    if properties.name is None {
        Err(ParseErrorView::MissingRequiredProperty("Name"@))
    } else if properties.version is None {
        Err(ParseErrorView::MissingRequiredProperty("Version"@))
    } else if properties.description is None {
        Err(ParseErrorView::MissingRequiredProperty("Description"@))
    } else {
        Ok(
            PkgConfigFileView {
                name: properties.name->Some_0,
                version: properties.version->Some_0,
                description: properties.description->Some_0,
                url: properties.url,
                includes: flagged(cflags, "-I"@),
                definitions: flagged(cflags, "-D"@),
                compile_flags: unflagged(cflags, seq!["-I"@, "-D"@]),
                cflags_private: properties.cflags_private,
                copyright: properties.copyright,
                link_locations: flagged(libs, "-L"@),
                link_libraries: flagged(libs, "-l"@),
                link_flags: unflagged(libs, seq!["-L"@, "-l"@]),
                libs_private: properties.libs_private,
                license: properties.license,
                maintainer: properties.maintainer,
                requires: needs,
                requires_private: needs_private,
                conflicts,
                provides,
            },
        )
    }
}

/// What reading the record makes of a text in which no reference is left.
/// A refused pattern comes first, that of a property before that of the
/// dependency lists; then the record is assembled of what was found.
pub open spec fn recorded(text: Seq<char>) -> Result<PkgConfigFileView, ParseErrorView> {
    let properties = properties_of(text);
    if first_refused() is Some {
        Err(ParseErrorView::InvalidPattern(property_pattern(first_refused()->Some_0)))
    } else if !pattern_accepted(DEPENDENCY_PATTERN@) {
        Err(ParseErrorView::InvalidPattern(DEPENDENCY_PATTERN@))
    } else {
        assembled(
            properties,
            dependency_list(or_empty(properties.requires)),
            dependency_list(or_empty(properties.requires_private)),
            dependency_list(or_empty(properties.conflicts)),
            dependency_list(or_empty(properties.provides)),
        )
    }
}

/// What parsing makes of a document: comments are stripped, variables
/// expanded, and the record is read from the text that results.
pub open spec fn parsed(data: Seq<char>) -> Result<PkgConfigFileView, ParseErrorView> {
    match expanded(stripped(data), 0) {
        Ok(text) => recorded(text),
        Err(e) => Err(e),
    }
}

/// The mathematical value of what parsing returns.
pub open spec fn parse_view(r: Result<PkgConfigFile, ParseError>) -> Result<
    PkgConfigFileView,
    ParseErrorView,
> {
    match r {
        Ok(file) => Ok(file@),
        Err(e) => Err(e@),
    }
}

/// The text of a property that may be missing.
fn text_or_empty(value: &Option<String>) -> (r: String)
    ensures
        r@ == or_empty(value.deep_view()),
{
    match value {
        Some(text) => text.clone(),
        None => String::new(),
    }
}

impl Properties {
    /// Searches `text` for every property that a document may hold. Fails
    /// only where a pattern is refused.
    pub fn capture(text: &str) -> (r: Result<Properties, ParseError>)
        ensures
            match r {
                Ok(properties) => first_refused() is None && properties@ == properties_of(text@),
                Err(e) => first_refused() is Some && e@ == ParseErrorView::InvalidPattern(
                    property_pattern(first_refused()->Some_0),
                ),
            },
    {
        let name = match capture_property("Name", text) {
            Ok(value) => value,
            Err(e) => {
                return Err(e);
            },
        };
        let version = match capture_property("Version", text) {
            Ok(value) => value,
            Err(e) => {
                return Err(e);
            },
        };
        let description = match capture_property("Description", text) {
            Ok(value) => value,
            Err(e) => {
                return Err(e);
            },
        };
        let url = match capture_property("URL", text) {
            Ok(value) => value,
            Err(e) => {
                return Err(e);
            },
        };
        let cflags = match capture_property("Cflags", text) {
            Ok(value) => value,
            Err(e) => {
                return Err(e);
            },
        };
        let cflags_private = match capture_property("Cflags.private", text) {
            Ok(value) => value,
            Err(e) => {
                return Err(e);
            },
        };
        let copyright = match capture_property("Copyright", text) {
            Ok(value) => value,
            Err(e) => {
                return Err(e);
            },
        };
        let libs = match capture_property("Libs", text) {
            Ok(value) => value,
            Err(e) => {
                return Err(e);
            },
        };
        let libs_private = match capture_property("Libs.private", text) {
            Ok(value) => value,
            Err(e) => {
                return Err(e);
            },
        };
        let license = match capture_property("License", text) {
            Ok(value) => value,
            Err(e) => {
                return Err(e);
            },
        };
        let maintainer = match capture_property("Maintainer", text) {
            Ok(value) => value,
            Err(e) => {
                return Err(e);
            },
        };
        let needs = match capture_property("Requires", text) {
            Ok(value) => value,
            Err(e) => {
                return Err(e);
            },
        };
        let needs_private = match capture_property("Requires.private", text) {
            Ok(value) => value,
            Err(e) => {
                return Err(e);
            },
        };
        let conflicts = match capture_property("Conflicts", text) {
            Ok(value) => value,
            Err(e) => {
                return Err(e);
            },
        };
        let provides = match capture_property("Provides", text) {
            Ok(value) => value,
            Err(e) => {
                return Err(e);
            },
        };
        Ok(
            Properties {
                name,
                version,
                description,
                url,
                cflags,
                cflags_private,
                copyright,
                libs,
                libs_private,
                license,
                maintainer,
                requires: needs,
                requires_private: needs_private,
                conflicts,
                provides,
            },
        )
    }
}

impl PkgConfigFile {
    /// Assembles the record of what was found in a document. Fails where
    /// `Name`, `Version` or `Description` is missing, naming the first of
    /// them that is.
    pub fn from_properties(
        properties: Properties,
        needs: Vec<Dependency>,
        needs_private: Vec<Dependency>,
        conflicts: Vec<Dependency>,
        provides: Vec<Dependency>,
    ) -> (r: Result<PkgConfigFile, ParseError>)
        ensures
            parse_view(r) == assembled(
                properties@,
                needs.deep_view(),
                needs_private.deep_view(),
                conflicts.deep_view(),
                provides.deep_view(),
            ),
    {
        let name = match properties.name {
            Some(value) => value,
            None => {
                return Err(ParseError::MissingRequiredProperty(String::from_str("Name")));
            },
        };
        let version = match properties.version {
            Some(value) => value,
            None => {
                return Err(ParseError::MissingRequiredProperty(String::from_str("Version")));
            },
        };
        let description = match properties.description {
            Some(value) => value,
            None => {
                return Err(ParseError::MissingRequiredProperty(String::from_str("Description")));
            },
        };
        let cflags = text_or_empty(&properties.cflags);
        let (includes, definitions, compile_flags) = split_flags(cflags.as_str(), "-I", "-D");
        let libs = text_or_empty(&properties.libs);
        let (link_locations, link_libraries, link_flags) = split_flags(libs.as_str(), "-L", "-l");
        Ok(
            PkgConfigFile {
                name,
                version,
                description,
                url: properties.url,
                includes,
                definitions,
                compile_flags,
                cflags_private: properties.cflags_private,
                copyright: properties.copyright,
                link_locations,
                link_libraries,
                link_flags,
                libs_private: properties.libs_private,
                license: properties.license,
                maintainer: properties.maintainer,
                requires: needs,
                requires_private: needs_private,
                conflicts,
                provides,
            },
        )
    }

    /// Parses a pkg-config document.
    pub fn parse(data: &str) -> (r: Result<PkgConfigFile, ParseError>)
        ensures
            parse_view(r) == parsed(data@),
    {
        let data = strip_comments(data);
        let data = match expand_variables(data.as_str(), 0) {
            Ok(text) => text,
            Err(e) => {
                return Err(e);
            },
        };
        let properties = match Properties::capture(data.as_str()) {
            Ok(properties) => properties,
            Err(e) => {
                return Err(e);
            },
        };
        let needs = match Dependency::parse_list(text_or_empty(&properties.requires).as_str()) {
            Ok(list) => list,
            Err(e) => {
                return Err(e);
            },
        };
        let needs_private = match Dependency::parse_list(
            text_or_empty(&properties.requires_private).as_str(),
        ) {
            Ok(list) => list,
            Err(e) => {
                return Err(e);
            },
        };
        let conflicts = match Dependency::parse_list(
            text_or_empty(&properties.conflicts).as_str(),
        ) {
            Ok(list) => list,
            Err(e) => {
                return Err(e);
            },
        };
        let provides = match Dependency::parse_list(text_or_empty(&properties.provides).as_str()) {
            Ok(list) => list,
            Err(e) => {
                return Err(e);
            },
        };
        PkgConfigFile::from_properties(properties, needs, needs_private, conflicts, provides)
    }
}

/// The record of a document that parses holds what was found of `Name`,
/// `Version` and `Description` in the expanded text: of each the rest of its
/// line, trimmed. That it parses says, too, that the patterns which a
/// record is read with were accepted.
pub proof fn lemma_parse_echoes_required(data: Seq<char>)
    requires
        parsed(data) is Ok,
    ensures
        ({
            let text = expanded(stripped(data), 0);
            &&& text is Ok
            &&& grammar_accepted()
            &&& property("Name"@, text->Ok_0) == Some(parsed(data)->Ok_0.name)
            &&& property("Version"@, text->Ok_0) == Some(parsed(data)->Ok_0.version)
            &&& property("Description"@, text->Ok_0) == Some(parsed(data)->Ok_0.description)
        }),
{
}

/// Where the patterns are accepted, a document parses exactly where its
/// variables expand and, in the text that results, `Name`, `Version` and
/// `Description` are found.
pub proof fn lemma_parse_succeeds(data: Seq<char>)
    requires
        grammar_accepted(),
    ensures
        ({
            let text = expanded(stripped(data), 0);
            parsed(data) is Ok <==> {
                &&& text is Ok
                &&& property("Name"@, text->Ok_0) is Some
                &&& property("Version"@, text->Ok_0) is Some
                &&& property("Description"@, text->Ok_0) is Some
            }
        }),
{
}

/// Whether the pattern that captures the property `name` is accepted.
fn property_accepted(name: &str) -> (r: bool)
    ensures
        r == !refused(name@),
{
    capture_property(name, "").is_ok()
}

/// Asks the regular expression engine whether it accepts every pattern of
/// the grammar: those that a record is read with, and that of a variable.
pub fn grammar_accepted_by_engine() -> (r: bool)
    ensures
        r == (grammar_accepted() && pattern_accepted(VARIABLE_PATTERN@)),
{
    property_accepted("Name") && property_accepted("Version") && property_accepted("Description")
        && property_accepted("URL") && property_accepted("Cflags") && property_accepted(
        "Cflags.private",
    ) && property_accepted("Copyright") && property_accepted("Libs") && property_accepted(
        "Libs.private",
    ) && property_accepted("License") && property_accepted("Maintainer") && property_accepted(
        "Requires",
    ) && property_accepted("Requires.private") && property_accepted("Conflicts")
        && property_accepted("Provides") && captures_iter(DEPENDENCY_PATTERN, "").is_ok()
        && captures_iter(VARIABLE_PATTERN, "").is_ok()
}

/// What is found of a property is trimmed: no white space is left at its
/// front or at its back.
pub proof fn lemma_property_is_trimmed(name: Seq<char>, text: Seq<char>)
    requires
        property(name, text) is Some,
    ensures
        trim(property(name, text)->Some_0) == property(name, text)->Some_0,
{
    let groups = first_match(property_pattern(name), text)->Some_0;
    lemma_trim_idempotent(groups[1]->Some_0);
}

} // verus!
