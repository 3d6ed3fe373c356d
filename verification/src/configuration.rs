//! Configuration of the rewrite module.

use http::{HeaderMap, HeaderValue};
use vstd::prelude::*;
use vstd::slice::*;
use vstd::std_specs::cmp::PartialEqSpecImpl;
use vstd::string::*;
use vstd::utf8::{encode_utf8, is_ascii_chars_encode_utf8};
use crate::request::{
    first_header, header_contents, header_value, law_first_header, Request,
};
use crate::router::{PathMatch, PatternModel};
use crate::text::{
    append_bytes, find_byte, lemma_position, lemma_position_is_first, position,
    same_bytes, same_text,
};

verus! {

/// The compiled regular expressions of the `regex` crate.
#[verifier::external_type_specification]
#[verifier::external_body]
pub struct ExRegex(regex::Regex);

/// The regular expression that a text is, `None` if it is not a regular expression, as
/// `regex::RegexBuilder::build` sees it without a size limit.
pub uninterp spec fn compiled_regex(pattern: Seq<char>) -> Option<regex::Regex>;

/// Whether a regular expression finds something in a text, as `regex::Regex::is_match` sees it.
pub uninterp spec fn regex_finds(pattern: Seq<char>, text: Seq<char>) -> bool;

/// Whether a text is a regular expression.
pub open spec fn regex_valid(pattern: Seq<char>) -> bool {
    compiled_regex(pattern) is Some
}

/// Calls `regex::RegexBuilder::build`. The limit for the size of the compiled expression counts
/// bytes, so that it means something else on each machine. It is lifted: the pattern alone decides
/// whether it is accepted and what the result is.
#[verifier::external_body]
fn compile_regex(pattern: &str) -> (r: Option<regex::Regex>)
    ensures
        r == compiled_regex(pattern@),
{
    regex::RegexBuilder::new(pattern).size_limit(usize::MAX).build().ok()
}

/// Calls `regex::Regex::is_match`. The pattern that the expression was compiled from and the text
/// alone decide whether there is a match.
#[verifier::external_body]
fn regex_is_match(regex: &regex::Regex, text: &str) -> (r: bool)
    ensures
        forall|pattern: Seq<char>| #[trigger]
            compiled_regex(pattern) == Some(*regex) ==> r == regex_finds(pattern, text@),
{
    regex.is_match(text)
}

/// A copy of a compiled regular expression is the same expression.
pub assume_specification[ <regex::Regex as Clone>::clone ](regex: &regex::Regex) -> (r: regex::Regex)
    ensures
        r == *regex,
;

/// The meaning of a condition.
#[verifier::ext_equal]
pub struct RegexModel {
    pub pattern: Seq<char>,
    pub negate: bool,
}

impl RegexModel {
    /// Whether the condition holds for a text.
    pub open spec fn accepts(self, text: Seq<char>) -> bool {
        regex_finds(self.pattern, text) != self.negate
    }
}

/// The meaning of the text of a condition: a regular expression, negated if there is an
/// exclamation mark in front of it.
pub open spec fn regex_model(text: Seq<char>) -> RegexModel {
    if text.len() > 0 && text[0] == '!' {
        RegexModel { pattern: text.skip(1), negate: true }
    } else {
        RegexModel { pattern: text, negate: false }
    }
}

/// Configuration mistakes.
#[derive(Clone, Copy, Debug, PartialEq, Eq, Structural)]
pub enum ConfError {
    /// A condition is not a regular expression.
    InvalidRegex,
}

/// A condition that a text has to meet, given as regular expression.
#[derive(Debug)]
pub struct RegexMatch {
    pattern: String,
    regex: regex::Regex,
    negate: bool,
}

impl View for RegexMatch {
    type V = RegexModel;

    closed spec fn view(&self) -> RegexModel {
        RegexModel { pattern: self.pattern@, negate: self.negate }
    }
}

impl Clone for RegexMatch {
    fn clone(&self) -> (r: RegexMatch)
        ensures
            r@ == self@,
    {
        proof {
            use_type_invariant(self);
        }
        RegexMatch {
            pattern: self.pattern.clone(),
            regex: self.regex.clone(),
            negate: self.negate,
        }
    }
}

impl PartialEq for RegexMatch {
    fn eq(&self, other: &RegexMatch) -> (r: bool)
        ensures
            r <==> self@.pattern == other@.pattern && self@.negate == other@.negate,
    {
        self.negate == other.negate && same_text(self.pattern.as_str(), other.pattern.as_str())
    }
}

impl PartialEqSpecImpl for RegexMatch {
    open spec fn obeys_eq_spec() -> bool {
        true
    }

    open spec fn eq_spec(&self, other: &RegexMatch) -> bool {
        self@ == other@
    }
}

impl Eq for RegexMatch {

}

impl RegexMatch {
    #[verifier::type_invariant]
    spec fn well_formed(self) -> bool {
        compiled_regex(self.pattern@) == Some(self.regex)
    }

    /// Reads a condition: a regular expression, with an exclamation mark in front of it if it
    /// should not match.
    pub fn new(text: &str) -> (r: Result<RegexMatch, ConfError>)
        ensures
            match r {
                Ok(regex) => regex@ == regex_model(text@),
                Err(error) => error == ConfError::InvalidRegex,
            },
            r is Ok <==> regex_valid(regex_model(text@).pattern),
            r matches Ok(regex) ==> if text@.len() > 0 && text@[0] == '!' {
                regex@.negate && text@ == seq!['!'] + regex@.pattern
            } else {
                !regex@.negate && text@ == regex@.pattern
            },
    {
        let len: usize = text.unicode_len();
        let negate = len > 0 && text.get_char(0) == '!';
        let pattern = if negate {
            text.substring_char(1, len)
        } else {
            text
        };
        assert(negate ==> text@.subrange(1, len as int) =~= text@.skip(1));
        assert(negate ==> text@ =~= seq!['!'] + text@.skip(1));
        match compile_regex(pattern) {
            Some(regex) => Ok(RegexMatch { pattern: pattern.to_owned(), regex, negate }),
            None => Err(ConfError::InvalidRegex),
        }
    }

    /// Determines whether the regular expression finds something in a text.
    pub fn finds(&self, text: &str) -> (r: bool)
        ensures
            r == regex_finds(self@.pattern, text@),
    {
        proof {
            use_type_invariant(self);
        }
        regex_is_match(&self.regex, text)
    }

    /// Determines whether the condition holds for a text in which the regular expression did or
    /// did not find something.
    pub fn holds_if_found(&self, found: bool) -> (r: bool)
        ensures
            r == (found != self@.negate),
    {
        found != self.negate
    }

    /// Determines whether the condition holds for a text.
    pub fn matches(&self, text: &str) -> (r: bool)
        ensures
            r == self@.accepts(text@),
            r <==> regex_finds(self@.pattern, text@) != self@.negate,
    {
        self.holds_if_found(self.finds(text))
    }
}

/// The byte starting a variable.
pub const DOLLAR: u8 = 0x24;

/// The byte in front of the name of a variable.
pub const OPENING_BRACE: u8 = 0x7b;

/// The byte after the name of a variable.
pub const CLOSING_BRACE: u8 = 0x7d;

/// The byte that stands for a dash in the name of a variable.
pub const UNDERSCORE: u8 = 0x5f;

/// The byte separating the words of a header name.
pub const DASH: u8 = 0x2d;

/// The length of the variable name at the start of a template that starts with a variable.
pub open spec fn name_len(template: Seq<u8>) -> nat {
    position(template.skip(2), CLOSING_BRACE)
}

/// Whether a template starts with a variable such as `${tail}`.
pub open spec fn starts_with_variable(template: Seq<u8>) -> bool {
    &&& template.len() >= 2
    &&& template[0] == DOLLAR
    &&& template[1] == OPENING_BRACE
    &&& name_len(template) + 2 < template.len()
}

/// A template with the values of its variables filled in. Everything that is not a variable, and
/// variables without a value, stay as they are.
pub open spec fn expanded(
    template: Seq<u8>,
    values: spec_fn(Seq<u8>) -> Option<Seq<u8>>,
) -> Seq<u8>
    decreases template.len(),
{
    if template.len() == 0 {
        Seq::empty()
    } else if starts_with_variable(template) {
        let end = name_len(template) + 3;
        let value = match values(template.subrange(2, end - 1)) {
            Some(value) => value,
            None => template.take(end as int),
        };
        value + expanded(template.skip(end as int), values)
    } else {
        seq![template[0]] + expanded(template.skip(1), values)
    }
}

/// A template in which no variable has a value is left unchanged.
pub proof fn law_unknown_variables_are_kept(
    template: Seq<u8>,
    values: spec_fn(Seq<u8>) -> Option<Seq<u8>>,
)
    requires
        forall|name: Seq<u8>| #[trigger] values(name) is None,
    ensures
        expanded(template, values) == template,
    decreases template.len(),
{
    if template.len() > 0 {
        let end = if starts_with_variable(template) {
            name_len(template) + 3
        } else {
            1
        };
        lemma_position(template.skip(2), CLOSING_BRACE);
        law_unknown_variables_are_kept(template.skip(end as int), values);
        assert(template.take(end as int) + template.skip(end as int) =~= template);
        assert(template.take(1) =~= seq![template[0]]);
        if starts_with_variable(template) {
            assert(values(template.subrange(2, end - 1)) is None);
        }
    }
}

/// A byte of a variable name as it is in a header name.
pub open spec fn dashed_byte(b: u8) -> u8 {
    if b == UNDERSCORE {
        DASH
    } else {
        b
    }
}

/// A variable name with dashes instead of underscores.
pub open spec fn dashed(name: Seq<u8>) -> Seq<u8> {
    name.map_values(|b: u8| dashed_byte(b))
}

/// The value of a header, empty if there is no such header.
pub open spec fn header_or_empty(headers: HeaderMap<HeaderValue>, name: Seq<u8>) -> Seq<u8> {
    match first_header(headers, name) {
        Some(value) => value,
        None => Seq::empty(),
    }
}

/// The value of a variable: the tail of the path for `tail`, the query string for `query`, and
/// the value of the header `xyz-abc` for `http_xyz_abc`. There are no other variables.
pub open spec fn variable_value(request: Request, tail: Seq<u8>, name: Seq<u8>) -> Option<
    Seq<u8>,
> {
    let header_prefix = encode_utf8("http_"@);
    if name == encode_utf8("tail"@) {
        Some(tail)
    } else if name == encode_utf8("query"@) {
        Some(encode_utf8(request.query_text()))
    } else if header_prefix.is_prefix_of(name) {
        Some(header_or_empty(request.headers, dashed(name.skip(header_prefix.len() as int))))
    } else {
        None
    }
}

/// The values of all variables.
pub open spec fn variables(request: Request, tail: Seq<u8>) -> spec_fn(Seq<u8>) -> Option<Seq<u8>> {
    |name: Seq<u8>| variable_value(request, tail, name)
}

/// Replaces underscores by dashes.
fn with_dashes(name: &[u8]) -> (r: Vec<u8>)
    ensures
        r@ == dashed(name@),
{
    let mut result: Vec<u8> = Vec::new();
    let mut i: usize = 0;
    while i < name.len()
        invariant
            i <= name.len(),
            result@ == dashed(name@.take(i as int)),
        decreases name.len() - i,
    {
        let byte: u8 = if name[i] == UNDERSCORE {
            DASH
        } else {
            name[i]
        };
        result.push(byte);
        i += 1;
        assert(result@ =~= dashed(name@.take(i as int)));
    }
    assert(name@.take(i as int) =~= name@);
    result
}

/// Determines the value of a variable.
pub fn variable(request: &Request, tail: &[u8], name: &[u8]) -> (r: Option<Vec<u8>>)
    ensures
        match r {
            Some(value) => variable_value(*request, tail@, name@) == Some(value@),
            None => variable_value(*request, tail@, name@) is None,
        },
        name@ == encode_utf8("tail"@) ==> r is Some && r->0@ == tail@,
        name@ == encode_utf8("query"@) && request.query is None ==> r is Some && r->0@.len() == 0,
        name@ == encode_utf8("query"@) && request.query is Some ==> r is Some && r->0@
            == encode_utf8(request.query->0@),
        r is None <==> name@ != encode_utf8("tail"@) && name@ != encode_utf8("query"@)
            && !encode_utf8("http_"@).is_prefix_of(name@),
{
    proof {
        law_variables(*request, tail@, name@, Seq::empty());
    }
    if same_bytes(name, "tail".as_bytes()) {
        return Some(slice_to_vec(tail));
    }
    if same_bytes(name, "query".as_bytes()) {
        return Some(slice_to_vec(request.query_or_empty().as_bytes()));
    }
    let prefix = "http_".as_bytes();
    let prefix_len: usize = prefix.len();
    if name.len() >= prefix_len && same_bytes(slice_subrange(name, 0, prefix_len), prefix) {
        assert(prefix@ =~= name@.subrange(0, prefix@.len() as int));
        assert(name@.subrange(prefix_len as int, name@.len() as int) =~= name@.skip(
            prefix_len as int,
        ));
        let header = with_dashes(slice_subrange(name, prefix_len, name.len()));
        match header_value(&request.headers, header.as_slice()) {
            Some(value) => Some(value),
            None => Some(Vec::new()),
        }
    } else {
        None
    }
}

/// A template text with variables.
#[derive(Debug)]
pub struct VariableInterpolation {
    template: Vec<u8>,
}

impl View for VariableInterpolation {
    type V = Seq<u8>;

    closed spec fn view(&self) -> Seq<u8> {
        self.template@
    }
}

impl Clone for VariableInterpolation {
    fn clone(&self) -> (r: VariableInterpolation)
        ensures
            r@ == self@,
    {
        VariableInterpolation { template: slice_to_vec(self.template.as_slice()) }
    }
}

impl PartialEq for VariableInterpolation {
    fn eq(&self, other: &VariableInterpolation) -> (r: bool)
        ensures
            r <==> self@ == other@,
    {
        same_bytes(self.template.as_slice(), other.template.as_slice())
    }
}

impl PartialEqSpecImpl for VariableInterpolation {
    open spec fn obeys_eq_spec() -> bool {
        true
    }

    open spec fn eq_spec(&self, other: &VariableInterpolation) -> bool {
        self@ == other@
    }
}

impl Eq for VariableInterpolation {

}

impl VariableInterpolation {
    /// Creates a template from its text.
    pub fn new(text: &str) -> (r: VariableInterpolation)
        ensures
            r@ == encode_utf8(text@),
    {
        VariableInterpolation { template: slice_to_vec(text.as_bytes()) }
    }

    /// Fills in the values of the variables.
    pub fn interpolate(&self, request: &Request, tail: &[u8]) -> (r: Vec<u8>)
        ensures
            r@ == expanded(self@, variables(*request, tail@)),
    {
        let template = self.template.as_slice();
        let ghost values = variables(*request, tail@);
        let mut result: Vec<u8> = Vec::new();
        let mut pos: usize = 0;
        assert(template@.skip(0) =~= template@);
        while pos < template.len()
            invariant
                pos <= template.len(),
                values == variables(*request, tail@),
                expanded(template@, values) == result@ + expanded(
                    template@.skip(pos as int),
                    values,
                ),
            decreases template.len() - pos,
        {
            let ghost rest = template@.skip(pos as int);
            let ghost before = result@;
            let mut end: usize = pos;
            if template.len() - pos >= 2 && template[pos] == DOLLAR && template[pos + 1]
                == OPENING_BRACE {
                end = find_byte(template, pos + 2, CLOSING_BRACE);
                assert(rest.skip(2) =~= template@.skip(pos + 2));
            }
            if end > pos && end < template.len() {
                let name = slice_subrange(template, pos + 2, end);
                assert(name@ =~= rest.subrange(2, name_len(rest) as int + 2));
                match variable(request, tail, name) {
                    Some(value) => append_bytes(&mut result, value.as_slice()),
                    None => {
                        assert(template@.subrange(pos as int, end + 1) =~= rest.take(
                            name_len(rest) as int + 3,
                        ));
                        append_bytes(&mut result, slice_subrange(template, pos, end + 1))
                    },
                }
                assert(rest.skip(name_len(rest) as int + 3) =~= template@.skip(end + 1));
                pos = end + 1;
            } else {
                result.push(template[pos]);
                assert(rest.skip(1) =~= template@.skip(pos + 1));
                assert(result@ =~= before + seq![rest[0]]);
                pos = pos + 1;
            }
            assert(expanded(template@, values) =~= result@ + expanded(
                template@.skip(pos as int),
                values,
            ));
        }
        assert(result@ + expanded(template@.skip(pos as int), values) =~= result@);
        result
    }
}

/// How the rewritten address takes effect.
#[derive(Clone, Copy, Debug, PartialEq, Eq, Structural)]
pub enum RewriteType {
    /// The request is processed as if it had been sent for the new address.
    Internal,
    /// The client is redirected to the new address.
    Redirect,
    /// The client is redirected to the new address permanently.
    Permanent,
}

/// A rule determining which requests to rewrite and how.
#[derive(Debug)]
pub struct RewriteRule {
    /// The paths that the rule applies to.
    pub from: PathMatch,
    /// A condition for the path.
    pub from_regex: Option<RegexMatch>,
    /// A condition for the query string.
    pub query_regex: Option<RegexMatch>,
    /// The new address.
    pub to: VariableInterpolation,
    /// How the new address takes effect.
    pub kind: RewriteType,
}

/// The meaning of a rule.
#[verifier::ext_equal]
pub struct RuleModel {
    pub from: PatternModel,
    pub from_regex: Option<RegexModel>,
    pub query_regex: Option<RegexModel>,
    pub to: Seq<u8>,
    pub kind: RewriteType,
}

/// The meaning of an optional condition.
pub open spec fn optional_regex(regex: Option<RegexMatch>) -> Option<RegexModel> {
    match regex {
        Some(regex) => Some(regex@),
        None => None,
    }
}

impl View for RewriteRule {
    type V = RuleModel;

    open spec fn view(&self) -> RuleModel {
        RuleModel {
            from: self.from@,
            from_regex: optional_regex(self.from_regex),
            query_regex: optional_regex(self.query_regex),
            to: self.to@,
            kind: self.kind,
        }
    }
}

/// The meaning of a list of rules.
pub open spec fn rule_models(rules: Seq<RewriteRule>) -> Seq<RuleModel> {
    Seq::new(rules.len(), |i: int| rules[i]@)
}

/// Compares two optional conditions.
fn same_condition(a: &Option<RegexMatch>, b: &Option<RegexMatch>) -> (r: bool)
    ensures
        r == (optional_regex(*a) == optional_regex(*b)),
{
    match (a, b) {
        (Some(a), Some(b)) => a == b,
        (None, None) => true,
        _ => false,
    }
}

/// Copies an optional condition.
fn copy_condition(regex: &Option<RegexMatch>) -> (r: Option<RegexMatch>)
    ensures
        optional_regex(r) == optional_regex(*regex),
{
    match regex {
        Some(regex) => Some(regex.clone()),
        None => None,
    }
}

impl Clone for RewriteRule {
    fn clone(&self) -> (r: RewriteRule)
        ensures
            r@ == self@,
    {
        RewriteRule {
            from: self.from.clone(),
            from_regex: copy_condition(&self.from_regex),
            query_regex: copy_condition(&self.query_regex),
            to: self.to.clone(),
            kind: self.kind,
        }
    }
}

impl PartialEq for RewriteRule {
    fn eq(&self, other: &RewriteRule) -> (r: bool)
        ensures
            r <==> {
                &&& self.from@ == other.from@
                &&& self.from_regex is Some <==> other.from_regex is Some
                &&& self.from_regex is Some ==> self.from_regex->0@ == other.from_regex->0@
                &&& self.query_regex is Some <==> other.query_regex is Some
                &&& self.query_regex is Some ==> self.query_regex->0@ == other.query_regex->0@
                &&& self.to@ == other.to@
                &&& self.kind == other.kind
            },
    {
        self.from == other.from && same_condition(&self.from_regex, &other.from_regex)
            && same_condition(&self.query_regex, &other.query_regex) && self.to == other.to
            && self.kind == other.kind
    }
}

impl PartialEqSpecImpl for RewriteRule {
    open spec fn obeys_eq_spec() -> bool {
        true
    }

    open spec fn eq_spec(&self, other: &RewriteRule) -> bool {
        self@ == other@
    }
}

impl Eq for RewriteRule {

}

/// Configuration of the rewrite module.
#[derive(Debug)]
pub struct RewriteConf {
    /// The rewrite rules. Among rules for the same paths, the one listed first takes precedence.
    pub rewrite_rules: Vec<RewriteRule>,
}

/// The variable `tail` stands for the tail of the path, `query` for the query string, and `http_`
/// followed by the name of a header for the first value of this header. In the name of the header
/// underscores stand for dashes, the case of its letters makes no difference, and if the request
/// has no such header the value is empty. No other variables exist.
pub proof fn law_variables(request: Request, tail: Seq<u8>, name: Seq<u8>, header: Seq<u8>)
    ensures
        variables(request, tail)(encode_utf8("tail"@)) == Some(tail),
        request.query matches Some(query) ==> variables(request, tail)(encode_utf8("query"@))
            == Some(encode_utf8(query@)),
        request.query is None ==> variables(request, tail)(encode_utf8("query"@)) == Some(
            Seq::<u8>::empty(),
        ),
        ({
            let key = Seq::new(
                header.len(),
                |i: int|
                    if header[i] == 0x5f {
                        0x2du8
                    } else if 0x41 <= header[i] <= 0x5a {
                        (header[i] + 0x20) as u8
                    } else {
                        header[i]
                    },
            );
            variables(request, tail)(encode_utf8("http_"@) + header) == Some(
                if header_contents(request.headers).contains_key(key) {
                    header_contents(request.headers)[key][0]
                } else {
                    Seq::empty()
                },
            )
        }),
        name != encode_utf8("tail"@) && name != encode_utf8("query"@) && !encode_utf8(
            "http_"@,
        ).is_prefix_of(name) ==> variables(request, tail)(name) is None,
        variable_value(request, tail, name) == variables(request, tail)(name),
{
    reveal_strlit("tail");
    reveal_strlit("query");
    reveal_strlit("http_");
    is_ascii_chars_encode_utf8("tail"@);
    is_ascii_chars_encode_utf8("query"@);
    is_ascii_chars_encode_utf8("http_"@);
    let prefix = encode_utf8("http_"@);
    assert(encode_utf8("tail"@)[0] == 0x74);
    assert(encode_utf8("query"@)[0] == 0x71);
    assert(prefix[0] == 0x68);
    let full = prefix + header;
    assert(full[0] == prefix[0]);
    assert(prefix =~= full.subrange(0, prefix.len() as int));
    assert(full.skip(prefix.len() as int) =~= header);
    let key = Seq::new(
        header.len(),
        |i: int|
            if header[i] == 0x5f {
                0x2du8
            } else if 0x41 <= header[i] <= 0x5a {
                (header[i] + 0x20) as u8
            } else {
                header[i]
            },
    );
    law_first_header(request.headers, dashed(header), key);
    assert(encode_utf8(Seq::<char>::empty()) =~= Seq::<u8>::empty());
}

/// What stands in a template before the first dollar sign is copied.
pub proof fn law_plain_text_is_copied(
    plain: Seq<u8>,
    rest: Seq<u8>,
    values: spec_fn(Seq<u8>) -> Option<Seq<u8>>,
)
    requires
        !plain.contains(0x24),
    ensures
        expanded(plain + rest, values) == plain + expanded(rest, values),
        expanded(Seq::empty(), values) == Seq::<u8>::empty(),
    decreases plain.len(),
{
    if plain.len() == 0 {
        assert(plain + rest =~= rest);
        assert(plain + expanded(rest, values) =~= expanded(rest, values));
    } else {
        assert(plain.contains(plain[0]));
        assert forall|b: u8| plain.skip(1).contains(b) implies plain.contains(b) by {
            let i = choose|i: int| 0 <= i < plain.skip(1).len() && plain.skip(1)[i] == b;
            assert(plain[i + 1] == b);
        }
        law_plain_text_is_copied(plain.skip(1), rest, values);
        assert((plain + rest).skip(1) =~= plain.skip(1) + rest);
        assert(expanded(plain + rest, values) =~= plain + expanded(rest, values));
    }
}

/// A variable in a template is replaced by its value, whatever follows it. A variable without a
/// value is copied.
pub proof fn law_variable_is_replaced(
    name: Seq<u8>,
    rest: Seq<u8>,
    values: spec_fn(Seq<u8>) -> Option<Seq<u8>>,
)
    requires
        !name.contains(0x7d),
    ensures
        ({
            let variable = seq![0x24u8, 0x7bu8] + name + seq![0x7du8];
            expanded(variable + rest, values) == (match values(name) {
                Some(value) => value,
                None => variable,
            }) + expanded(rest, values)
        }),
{
    let variable = seq![0x24u8, 0x7bu8] + name + seq![0x7du8];
    let template = variable + rest;
    assert(template.skip(2) =~= name + seq![0x7du8] + rest);
    assert forall|i: int| 0 <= i < name.len() implies #[trigger] template.skip(2)[i] != 0x7d by {
        assert(name.contains(name[i]));
    }
    lemma_position_is_first(template.skip(2), CLOSING_BRACE, name.len());
    assert(name_len(template) == name.len());
    assert(template.subrange(2, name.len() as int + 2) =~= name);
    assert(template.take(name.len() as int + 3) =~= variable);
    assert(template.skip(name.len() as int + 3) =~= rest);
}

/// A dollar sign that does not start a variable is copied: one without a brace behind it, and one
/// where the brace is never closed.
pub proof fn law_other_dollar_signs_are_copied(
    rest: Seq<u8>,
    values: spec_fn(Seq<u8>) -> Option<Seq<u8>>,
)
    requires
        rest.len() == 0 || rest[0] != 0x7b || !rest.contains(0x7d),
    ensures
        expanded(seq![0x24u8] + rest, values) == seq![0x24u8] + expanded(rest, values),
{
    let template = seq![0x24u8] + rest;
    assert(template.skip(1) =~= rest);
    if starts_with_variable(template) {
        assert(template[1] == rest[0]);
        lemma_position(template.skip(2), CLOSING_BRACE);
        let end = name_len(template) as int;
        assert(template.skip(2)[end] == rest[end + 1]);
        assert(rest.contains(0x7d));
    }
}

/// What a rule says is what it consists of, and a list of rules says what each of them says.
pub proof fn law_rule_models(rules: Seq<RewriteRule>, i: int)
    requires
        0 <= i < rules.len(),
    ensures
        rule_models(rules).len() == rules.len(),
        rule_models(rules)[i] == rules[i]@,
        rules[i]@.from == rules[i].from@,
        rules[i]@.from_regex is Some <==> rules[i].from_regex is Some,
        rules[i].from_regex matches Some(regex) ==> rules[i]@.from_regex == Some(regex@),
        rules[i]@.query_regex is Some <==> rules[i].query_regex is Some,
        rules[i].query_regex matches Some(regex) ==> rules[i]@.query_regex == Some(regex@),
        rules[i]@.to == rules[i].to@,
        rules[i]@.kind == rules[i].kind,
{
}

/// A condition holds for a text if and only if its regular expression finds something there and is
/// not negated, or finds nothing and is negated.
pub proof fn law_conditions(regex: RegexModel, text: Seq<char>)
    ensures
        !regex.negate ==> (regex.accepts(text) <==> regex_finds(regex.pattern, text)),
        regex.negate ==> (regex.accepts(text) <==> !regex_finds(regex.pattern, text)),
{
}

} // verus!
