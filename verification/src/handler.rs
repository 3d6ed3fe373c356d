//! Handler for the `request_filter` phase.

use vstd::prelude::*;
use vstd::slice::*;
use vstd::std_specs::cmp::PartialEqSpecImpl;
use vstd::utf8::{
    decode_utf8, decode_utf8_encode_utf8, encode_utf8, encode_utf8_decode_utf8,
    is_ascii_chars_encode_utf8, valid_utf8,
};
use crate::configuration::{
    expanded, law_plain_text_is_copied, law_variable_is_replaced, law_variables, regex_finds,
    rule_models, variables, RegexModel, RewriteConf, RewriteRule, RewriteType, RuleModel,
};
use crate::request::{Request, RequestFilterResult};
use crate::response::{is_header_text, Error, Response, ResponseModel};
use crate::router::{
    law_most_specific_pattern_is_unique, law_patterns_are_ordered, law_prefix_and_tail, law_tail,
    segments, tail_after, Path,
    PatternModel, SLASH,
};
use crate::standard_response::{
    known_status_line, law_standard_response, presents, redirect_response, standard_response,
};
use crate::status::StatusCode;
use crate::text::{position, utf8_text};

verus! {

/// The byte starting the fragment of an address.
pub const HASH: u8 = 0x23;

/// The addresses of the `http` crate.
#[verifier::external_type_specification]
#[verifier::external_body]
pub struct ExUri(http::Uri);

/// An address and its text.
#[derive(Debug)]
pub struct Address {
    pub uri: http::Uri,
    pub text: String,
}

impl View for Address {
    type V = (http::Uri, Seq<char>);

    open spec fn view(&self) -> (http::Uri, Seq<char>) {
        (self.uri, self.text@)
    }
}

/// The address that results from parsing bytes, and its text, `None` if they are not an address,
/// as `http::Uri::try_from` sees it.
pub uninterp spec fn parsed_uri(target: Seq<u8>) -> Option<(http::Uri, Seq<char>)>;

/// The bytes of an address without its fragment.
pub open spec fn without_fragment(target: Seq<u8>) -> Seq<u8> {
    target.take(position(target, HASH) as int)
}

/// Whether the text of an address consists of the bytes that were parsed, apart from a fragment.
/// This is not demanded of bytes that do not start with a slash.
pub open spec fn is_own_text(target: Seq<u8>, uri: Seq<char>) -> bool {
    target.len() > 0 && target[0] == SLASH ==> encode_utf8(uri) == without_fragment(target)
}

/// Calls `http::Uri::try_from` and returns the resulting address with its text.
///
/// The bytes alone decide whether they are accepted and what the resulting address is. If they
/// start with a slash, the address consists of these very bytes, only a fragment is removed.
#[verifier::external_body]
fn parse_uri(target: &[u8]) -> (r: Option<Address>)
    ensures
        match r {
            Some(address) => parsed_uri(target@) == Some(address@),
            None => parsed_uri(target@) is None,
        },
        r matches Some(address) ==> is_own_text(target@, address.text@),
{
    let uri = http::Uri::try_from(target).ok()?;
    let text = uri.to_string();
    Some(Address { uri, text })
}

/// Reasons why a new address is not usable.
#[derive(Clone, Copy, Debug, PartialEq, Eq, Structural)]
pub enum TargetProblem {
    /// It cannot be parsed as an address.
    NotUri,
    /// It is not valid UTF-8.
    NotText,
}

/// What should happen to a request.
#[derive(Debug)]
pub enum RewriteAction {
    /// The request stays as it is, no rule applies to it.
    Pass,
    /// The request stays as it is because the new address is not usable.
    Unusable(TargetProblem, Vec<u8>),
    /// The request should be processed further with this address.
    SetUri(Address),
    /// The request should be answered with this response.
    Respond(Response),
}

/// What a rewrite action says.
pub enum ActionModel {
    Pass,
    Unusable(TargetProblem, Seq<u8>),
    SetUri((http::Uri, Seq<char>)),
    Respond(ResponseModel),
}

impl View for RewriteAction {
    type V = ActionModel;

    open spec fn view(&self) -> ActionModel {
        match *self {
            RewriteAction::Pass => ActionModel::Pass,
            RewriteAction::Unusable(problem, target) => ActionModel::Unusable(problem, target@),
            RewriteAction::SetUri(address) => ActionModel::SetUri(address@),
            RewriteAction::Respond(response) => ActionModel::Respond(response@),
        }
    }
}

impl RewriteAction {
    /// What became of the request once this action has been performed.
    pub fn result(&self) -> (r: RequestFilterResult)
        ensures
            r == (if self is Respond {
                RequestFilterResult::ResponseSent
            } else {
                RequestFilterResult::Unhandled
            }),
            r == RequestFilterResult::ResponseSent <==> *self matches RewriteAction::Respond(_),
    {
        match self {
            RewriteAction::Respond(_) => RequestFilterResult::ResponseSent,
            _ => RequestFilterResult::Unhandled,
        }
    }
}

/// The outcome of rewriting a request, as far as it does not depend on how it was computed.
pub open spec fn outcome(r: Result<RewriteAction, Error>) -> Result<ActionModel, Error> {
    match r {
        Ok(action) => Ok(action@),
        Err(error) => Err(error),
    }
}

/// Whether a condition holds for a text. Without a condition it always does.
pub open spec fn condition_holds(condition: Option<RegexModel>, text: Seq<char>) -> bool {
    match condition {
        Some(regex) => regex.accepts(text),
        None => true,
    }
}

/// The bytes of the path that a request was sent for.
pub open spec fn path_bytes(request: Request) -> Seq<u8> {
    encode_utf8(request.path@)
}

/// Whether a rule applies to a request: its pattern selects the path, and its conditions hold.
pub open spec fn applies(rule: RuleModel, request: Request) -> bool {
    &&& rule.from.selects(segments(path_bytes(request)))
    &&& condition_holds(rule.from_regex, request.path@)
    &&& condition_holds(rule.query_regex, request.query_text())
}

/// The tail of the path that a request was sent for: what follows the path of the rule. If the
/// path does not start with the path of the rule, this is the entire path.
pub open spec fn rule_tail(rule: RuleModel, request: Request) -> Seq<u8> {
    let path = path_bytes(request);
    if rule.from.path.is_prefix_of(segments(path)) {
        tail_after(path, rule.from.path.len())
    } else {
        path
    }
}

/// The new address that a rule determines for a request.
pub open spec fn rule_target(rule: RuleModel, request: Request) -> Seq<u8> {
    expanded(rule.to, variables(request, rule_tail(rule, request)))
}

/// The result of rewriting the address internally, depending on the result of parsing it.
pub open spec fn internal_action(
    target: Seq<u8>,
    parsed: Option<(http::Uri, Seq<char>)>,
) -> ActionModel {
    match parsed {
        Some(address) => ActionModel::SetUri(address),
        None => ActionModel::Unusable(TargetProblem::NotUri, target),
    }
}

/// The result of redirecting to an address.
pub open spec fn redirect_action(method: Seq<char>, code: u16, target: Seq<u8>) -> Result<
    ActionModel,
    Error,
> {
    if !valid_utf8(target) {
        Ok(ActionModel::Unusable(TargetProblem::NotText, target))
    } else if is_header_text(decode_utf8(target)) {
        Ok(ActionModel::Respond(standard_response(method, code, Some(decode_utf8(target)))))
    } else {
        Err(Error::InvalidHeader)
    }
}

/// What a rule does to a request that it applies to.
pub open spec fn rule_action(rule: RuleModel, request: Request) -> Result<ActionModel, Error> {
    let target = rule_target(rule, request);
    match rule.kind {
        RewriteType::Internal => Ok(internal_action(target, parsed_uri(target))),
        RewriteType::Redirect => redirect_action(request.method@, 307, target),
        RewriteType::Permanent => redirect_action(request.method@, 308, target),
    }
}

/// The first rule of a list that applies to a request.
pub open spec fn first_applicable(rules: Seq<RuleModel>, request: Request) -> Option<RuleModel>
    decreases rules.len(),
{
    if rules.len() == 0 {
        None
    } else if applies(rules[0], request) {
        Some(rules[0])
    } else {
        first_applicable(rules.skip(1), request)
    }
}

/// What the rules of a list do to a request: the first one that applies decides.
pub open spec fn list_action(rules: Seq<RuleModel>, request: Request) -> Result<
    ActionModel,
    Error,
> {
    match first_applicable(rules, request) {
        Some(rule) => rule_action(rule, request),
        None => Ok(ActionModel::Pass),
    }
}

/// Determines the action for an internal rewrite from the result of parsing the new address.
pub fn finish_internal(target: Vec<u8>, parsed: Option<Address>) -> (r: RewriteAction)
    ensures
        r@ == internal_action(
            target@,
            match parsed {
                Some(address) => Some(address@),
                None => None,
            },
        ),
        parsed is Some ==> r == RewriteAction::SetUri(parsed->0),
        parsed is None ==> r == RewriteAction::Unusable(TargetProblem::NotUri, target),
{
    match parsed {
        Some(address) => RewriteAction::SetUri(address),
        None => RewriteAction::Unusable(TargetProblem::NotUri, target),
    }
}

/// Determines the action for a redirect to the given address.
pub fn finish_redirect(method: &str, status: StatusCode, target: Vec<u8>) -> (r: Result<
    RewriteAction,
    Error,
>)
    ensures
        outcome(r) == redirect_action(method@, status@, target@),
        r matches Ok(RewriteAction::Respond(response)) ==> (known_status_line(
            status@,
        ) matches Some(line) ==> presents(response@, line)),
        match r {
            Ok(RewriteAction::Respond(response)) => {
                &&& response.status == status
                &&& response.headers@.len() == 3
                &&& response.headers@[2].0@ == "location"@
                &&& encode_utf8(response.headers@[2].1@) == target@
                &&& response.body is None <==> method@ == "HEAD"@
            },
            Ok(RewriteAction::Unusable(problem, bytes)) => !valid_utf8(target@) && problem
                == TargetProblem::NotText && bytes@ == target@,
            Ok(_) => false,
            Err(_) => valid_utf8(target@) && !is_header_text(decode_utf8(target@)),
        },
{
    proof {
        if valid_utf8(target@) {
            decode_utf8_encode_utf8(target@);
        }
    }
    match utf8_text(slice_to_vec(target.as_slice())) {
        Some(location) => match redirect_response(method, status, location.as_str()) {
            Ok(response) => Ok(RewriteAction::Respond(response)),
            Err(error) => Err(error),
        },
        None => Ok(RewriteAction::Unusable(TargetProblem::NotText, target)),
    }
}

/// Whether what an action says about the new address or the redirect is spelled out: an address
/// consists of the bytes that the rule determined, the page of a redirect names its status.
pub open spec fn is_spelled_out(action: RewriteAction, target: Seq<u8>) -> bool {
    match action {
        RewriteAction::SetUri(address) => is_own_text(target, address.text@),
        RewriteAction::Respond(response) => response.status@ == 307 && presents(
            response@,
            "307 Temporary Redirect"@,
        ) || response.status@ == 308 && presents(response@, "308 Permanent Redirect"@),
        _ => true,
    }
}

impl RewriteRule {
    /// Determines whether the rule applies to a request for the given path, provided that its
    /// regular expressions did or did not find something.
    pub fn applies_if_found(&self, path: &Path, from_found: bool, query_found: bool) -> (r: bool)
        ensures
            r <==> {
                &&& self.from@.selects(path@)
                &&& (self.from_regex matches Some(regex) ==> from_found != regex@.negate)
                &&& (self.query_regex matches Some(regex) ==> query_found != regex@.negate)
            },
    {
        if !self.from.matches(path) {
            return false;
        }
        if let Some(from_regex) = &self.from_regex {
            if !from_regex.holds_if_found(from_found) {
                return false;
            }
        }
        if let Some(query_regex) = &self.query_regex {
            if !query_regex.holds_if_found(query_found) {
                return false;
            }
        }
        true
    }

    /// Determines whether the rule applies to a request.
    pub(crate) fn applies(&self, path: &Path, request: &Request) -> (r: bool)
        requires
            path@ == segments(path_bytes(*request)),
        ensures
            r == applies(self@, *request),
            r <==> {
                &&& self.from@.selects(segments(encode_utf8(request.path@)))
                &&& (self.from_regex matches Some(regex) ==> (regex_finds(
                    regex@.pattern,
                    request.path@,
                ) != regex@.negate))
                &&& (self.query_regex matches Some(regex) ==> (regex_finds(
                    regex@.pattern,
                    if request.query is Some {
                        request.query->0@
                    } else {
                        Seq::empty()
                    },
                ) != regex@.negate))
            },
    {
        let from_found = match &self.from_regex {
            Some(from_regex) => from_regex.finds(request.path.as_str()),
            None => false,
        };
        let query_found = match &self.query_regex {
            Some(query_regex) => query_regex.finds(request.query_or_empty()),
            None => false,
        };
        self.applies_if_found(path, from_found, query_found)
    }

    /// Determines the new address for a request.
    pub fn target(&self, request: &Request) -> (r: Vec<u8>)
        ensures
            r@ == rule_target(self@, *request),
            exists|tail: Seq<u8>|
                r@ == #[trigger] expanded(self.to@, variables(*request, tail)) && is_tail_of(
                    tail,
                    self.from.path@,
                    encode_utf8(request.path@),
                ),
            self.to@ == encode_utf8("${tail}"@) ==> {
                let path = encode_utf8(request.path@);
                if self.from.path@.is_prefix_of(segments(path)) {
                    segments(path) == self.from.path@ + segments(r@) && (path.len() > 0
                        && self.from.path@.len() == 0 ==> r@ == path)
                } else {
                    r@ == path
                }
            },
    {
        proof {
            law_rule_tail(self@, *request);
            lemma_tail_template(*request, rule_tail(self@, *request));
        }
        let path = request.path.as_str().as_bytes();
        let tail = match self.from.path.remove_prefix_from(path) {
            Some(tail) => tail,
            None => slice_to_vec(path),
        };
        self.to.interpolate(request, tail.as_slice())
    }

    /// Determines what the rule does to a request that it applies to.
    pub fn action(&self, request: &Request) -> (r: Result<RewriteAction, Error>)
        ensures
            outcome(r) == rule_action(self@, *request),
            r matches Ok(action) ==> is_spelled_out(action, rule_target(self@, *request)),
            r matches Ok(RewriteAction::Respond(response)) ==> {
                &&& self.kind is Redirect ==> response.status@ == 307
                &&& self.kind is Permanent ==> response.status@ == 308
                &&& self.kind !is Internal
                &&& response.headers@.len() == 3
                &&& response.headers@[2].0@ == "location"@
                &&& encode_utf8(response.headers@[2].1@) == rule_target(self@, *request)
                &&& response.body is None <==> request.method@ == "HEAD"@
            },
            r matches Ok(RewriteAction::SetUri(address)) ==> self.kind is Internal && parsed_uri(
                rule_target(self@, *request),
            ) == Some((address.uri, address.text@)),
            r matches Ok(RewriteAction::Unusable(problem, target)) ==> {
                &&& target@ == rule_target(self@, *request)
                &&& problem == (if self.kind is Internal {
                    TargetProblem::NotUri
                } else {
                    TargetProblem::NotText
                })
            },
            !(r matches Ok(RewriteAction::Pass)),
            r is Err ==> self.kind !is Internal,
    {
        let target = self.target(request);
        match self.kind {
            RewriteType::Internal => {
                let parsed = parse_uri(target.as_slice());
                Ok(finish_internal(target, parsed))
            },
            RewriteType::Redirect => finish_redirect(
                request.method.as_str(),
                StatusCode::temporary_redirect(),
                target,
            ),
            RewriteType::Permanent => finish_redirect(
                request.method.as_str(),
                StatusCode::permanent_redirect(),
                target,
            ),
        }
    }
}

/// A list of rules with one more rule in its place: behind the rules that precede it, and in front
/// of all others.
pub open spec fn placed(rule: RuleModel, rules: Seq<RuleModel>) -> Seq<RuleModel>
    decreases rules.len(),
{
    if rules.len() > 0 && rules[0].from.precedes(rule.from) {
        seq![rules[0]] + placed(rule, rules.skip(1))
    } else {
        seq![rule] + rules
    }
}

/// A list of rules in the order of their precedence: more specific rules come first, and those for
/// the same paths stay in the order in which they are listed.
pub open spec fn ordered(rules: Seq<RuleModel>) -> Seq<RuleModel>
    decreases rules.len(),
{
    if rules.len() == 0 {
        Seq::empty()
    } else {
        placed(rules[0], ordered(rules.skip(1)))
    }
}

/// A rule is placed by inserting it behind the rules that precede it.
proof fn lemma_placed(rule: RuleModel, rules: Seq<RuleModel>, pos: nat)
    requires
        pos <= rules.len(),
        forall|i: int| 0 <= i < pos ==> (#[trigger] rules[i]).from.precedes(rule.from),
        pos < rules.len() ==> !rules[pos as int].from.precedes(rule.from),
    ensures
        placed(rule, rules) == rules.insert(pos as int, rule),
    decreases pos,
{
    if pos == 0 {
        assert(seq![rule] + rules =~= rules.insert(0, rule));
    } else {
        let rest = rules.skip(1);
        assert forall|i: int| 0 <= i < pos - 1 implies (#[trigger] rest[i]).from.precedes(
            rule.from,
        ) by {
            assert(rest[i] == rules[i + 1]);
        }
        lemma_placed(rule, rest, (pos - 1) as nat);
        assert(seq![rules[0]] + rest.insert(pos - 1, rule) =~= rules.insert(pos as int, rule));
    }
}

/// Puts a rule in its place.
fn place(rules: &mut Vec<RewriteRule>, rule: RewriteRule)
    ensures
        rule_models(final(rules)@) == placed(rule@, rule_models(old(rules)@)),
{
    let mut pos: usize = 0;
    while pos < rules.len() && rules[pos].from.precedes(&rule.from)
        invariant
            pos <= rules.len(),
            forall|i: int|
                0 <= i < pos ==> (#[trigger] rule_models(rules@)[i]).from.precedes(rule@.from),
        decreases rules.len() - pos,
    {
        pos += 1;
    }
    proof {
        lemma_placed(rule@, rule_models(rules@), pos as nat);
    }
    rules.insert(pos, rule);
    assert(rule_models(rules@) =~= rule_models(old(rules)@).insert(pos as int, rule@));
}

/// Handler for the `request_filter` phase
#[derive(Debug)]
pub struct RewriteHandler {
    rules: Vec<RewriteRule>,
}

impl View for RewriteHandler {
    type V = Seq<RuleModel>;

    /// The rules in the order of their precedence.
    closed spec fn view(&self) -> Seq<RuleModel> {
        rule_models(self.rules@)
    }
}

impl Clone for RewriteHandler {
    fn clone(&self) -> (r: RewriteHandler)
        ensures
            r@ == self@,
    {
        let mut rules: Vec<RewriteRule> = Vec::new();
        let mut i: usize = 0;
        while i < self.rules.len()
            invariant
                i <= self.rules.len(),
                rules.len() == i,
                forall|j: int| 0 <= j < i ==> (#[trigger] rules@[j])@ == self.rules@[j]@,
            decreases self.rules.len() - i,
        {
            rules.push(self.rules[i].clone());
            i += 1;
        }
        let r = RewriteHandler { rules };
        assert(r@ =~= self@);
        r
    }
}

impl PartialEq for RewriteHandler {
    fn eq(&self, other: &RewriteHandler) -> (r: bool)
        ensures
            r <==> self@ == other@,
    {
        if self.rules.len() != other.rules.len() {
            assert(self@.len() != other@.len());
            return false;
        }
        let mut i: usize = 0;
        while i < self.rules.len()
            invariant
                i <= self.rules.len() == other.rules.len(),
                forall|j: int| 0 <= j < i ==> #[trigger] self@[j] == other@[j],
            decreases self.rules.len() - i,
        {
            if self.rules[i] != other.rules[i] {
                assert(self@[i as int] != other@[i as int]);
                return false;
            }
            i += 1;
        }
        assert(self@ =~= other@);
        true
    }
}

impl PartialEqSpecImpl for RewriteHandler {
    open spec fn obeys_eq_spec() -> bool {
        true
    }

    open spec fn eq_spec(&self, other: &RewriteHandler) -> bool {
        self@ == other@
    }
}

impl Eq for RewriteHandler {

}

impl RewriteHandler {
    /// Creates a handler for the given configuration. This never fails.
    pub fn try_from(conf: RewriteConf) -> (r: Result<RewriteHandler, Error>)
        ensures
            r matches Ok(handler) && handler@ == ordered(rule_models(conf.rewrite_rules@)),
    {
        let mut listed = conf.rewrite_rules;
        let ghost all = rule_models(listed@);
        let mut rules: Vec<RewriteRule> = Vec::new();
        assert(rule_models(rules@) =~= Seq::empty());
        assert(all.skip(all.len() as int) =~= Seq::empty());

        // Add in reverse order, so that the first rule listed in configuration takes precedence.
        loop
            invariant
                listed.len() <= all.len(),
                rule_models(listed@) == all.take(listed.len() as int),
                rule_models(rules@) == ordered(all.skip(listed.len() as int)),
            ensures
                listed.len() == 0,
            decreases listed.len(),
        {
            let ghost count = listed.len();
            let ghost before = rule_models(listed@);
            match listed.pop() {
                Some(rule) => {
                    assert(before[count - 1] == rule@);
                    assert(rule_models(listed@) =~= before.take(count - 1));
                    assert(before.take(count - 1) =~= all.take(count - 1));
                    assert(all.skip(count - 1).skip(1) =~= all.skip(count as int));
                    place(&mut rules, rule);
                },
                None => {
                    break;
                },
            }
        }
        assert(all.skip(0) =~= all);
        Ok(RewriteHandler { rules })
    }

    /// Determines what should happen to a request.
    pub fn request_filter(&self, request: &Request) -> (r: Result<RewriteAction, Error>)
        ensures
            outcome(r) == list_action(self@, *request),
            r matches Ok(action) ==> (first_applicable(self@, *request) matches Some(rule)
                ==> is_spelled_out(action, rule_target(rule, *request))),
            r matches Ok(RewriteAction::Pass) <==> forall|i: int|
                0 <= i < self@.len() ==> !applies(#[trigger] self@[i], *request),
            !(r matches Ok(RewriteAction::Pass)) ==> exists|i: int|
                {
                    &&& 0 <= i < self@.len()
                    &&& applies(#[trigger] self@[i], *request)
                    &&& forall|j: int| 0 <= j < i ==> !applies(#[trigger] self@[j], *request)
                    &&& match r {
                        Ok(RewriteAction::Respond(response)) => {
                            &&& response.status@ == 307 && self@[i].kind is Redirect
                                || response.status@ == 308 && self@[i].kind is Permanent
                            &&& response.headers@.len() == 3
                            &&& response.headers@[2].0@ == "location"@
                            &&& encode_utf8(response.headers@[2].1@) == rule_target(
                                self@[i],
                                *request,
                            )
                        },
                        Ok(RewriteAction::SetUri(address)) => self@[i].kind is Internal
                            && parsed_uri(rule_target(self@[i], *request)) == Some(
                            (address.uri, address.text@),
                        ),
                        Ok(RewriteAction::Unusable(_, target)) => target@ == rule_target(
                            self@[i],
                            *request,
                        ),
                        _ => self@[i].kind !is Internal,
                    }
                },
    {
        let path = Path::new(request.path.as_str().as_bytes());
        let mut i: usize = 0;
        assert(self@.skip(0) =~= self@);
        while i < self.rules.len()
            invariant
                i <= self.rules.len(),
                path@ == segments(path_bytes(*request)),
                first_applicable(self@, *request) == first_applicable(
                    self@.skip(i as int),
                    *request,
                ),
                forall|j: int| 0 <= j < i ==> !applies(#[trigger] self@[j], *request),
            decreases self.rules.len() - i,
        {
            let rule = &self.rules[i];
            assert(self@.skip(i as int)[0] == rule@);
            assert(self@[i as int] == rule@);
            if rule.applies(&path, request) {
                return rule.action(request);
            }
            assert(self@.skip(i as int).skip(1) =~= self@.skip(i + 1));
            i += 1;
        }
        Ok(RewriteAction::Pass)
    }
}

/// What can be said about the order of patterns.
proof fn lemma_precedes(a: PatternModel, b: PatternModel, c: PatternModel)
    ensures
        a.precedes(b) ==> !b.precedes(a),
        a == b || a.precedes(b) || b.precedes(a),
        !a.precedes(b) && !b.precedes(c) ==> !a.precedes(c),
{
    law_patterns_are_ordered();
    let order = |a: PatternModel, b: PatternModel| a.precedes(b);
    assert(order(a, b) == a.precedes(b) && order(b, a) == b.precedes(a));
    assert(order(b, c) == b.precedes(c) && order(c, b) == c.precedes(b));
    assert(order(a, c) == a.precedes(c) && order(a, a) == a.precedes(a));
}

/// Among the patterns that select one path only specificity matters.
proof fn lemma_precedes_on_path(a: PatternModel, b: PatternModel, path: Seq<Seq<u8>>)
    requires
        a.selects(path),
        b.selects(path),
    ensures
        a.precedes(b) == a.beats(b),
{
    if !a.beats(b) && !b.beats(a) {
        law_most_specific_pattern_is_unique(a, b, path);
        lemma_precedes(a, a, a);
    }
}

/// Whether no rule of a list precedes an earlier one.
pub open spec fn is_ordered(rules: Seq<RuleModel>) -> bool {
    forall|i: int, j: int|
        0 <= i < j < rules.len() ==> !(#[trigger] rules[j]).from.precedes(
            (#[trigger] rules[i]).from,
        )
}

/// Placing a rule keeps the order and adds only this rule.
proof fn lemma_placed_is_ordered(rule: RuleModel, rules: Seq<RuleModel>)
    requires
        is_ordered(rules),
    ensures
        is_ordered(placed(rule, rules)),
        placed(rule, rules).to_multiset() == rules.to_multiset().insert(rule),
    decreases rules.len(),
{
    let result = placed(rule, rules);
    broadcast use vstd::seq_lib::group_to_multiset_ensures;

    if rules.len() > 0 && rules[0].from.precedes(rule.from) {
        let rest = rules.skip(1);
        assert forall|i: int, j: int| 0 <= i < j < rest.len() implies !(
        #[trigger] rest[j]).from.precedes((#[trigger] rest[i]).from) by {
            assert(rest[i] == rules[i + 1] && rest[j] == rules[j + 1]);
        }
        lemma_placed_is_ordered(rule, rest);
        let tail = placed(rule, rest);
        assert forall|j: int| 0 <= j < tail.len() implies !(#[trigger] tail[j]).from.precedes(
            rules[0].from,
        ) by {
            assert(tail.contains(tail[j]));
            assert(rest.to_multiset().insert(rule).count(tail[j]) > 0);
            lemma_precedes(rules[0].from, rule.from, rule.from);
            if tail[j] != rule {
                assert(rest.contains(tail[j]));
                let k = choose|k: int| 0 <= k < rest.len() && rest[k] == tail[j];
                assert(rest[k] == rules[k + 1]);
            }
        }
        assert forall|i: int, j: int| 0 <= i < j < result.len() implies !(
        #[trigger] result[j]).from.precedes((#[trigger] result[i]).from) by {
            assert(result[j] == tail[j - 1]);
            if i > 0 {
                assert(result[i] == tail[i - 1]);
            }
        }
        assert(result =~= tail.insert(0, rules[0]));
        assert(rules =~= rest.insert(0, rules[0]));
        assert(result.to_multiset() =~= rules.to_multiset().insert(rule));
    } else {
        assert forall|i: int, j: int| 0 <= i < j < result.len() implies !(
        #[trigger] result[j]).from.precedes((#[trigger] result[i]).from) by {
            assert(result[j] == rules[j - 1]);
            if i > 0 {
                assert(result[i] == rules[i - 1]);
            } else if j > 1 {
                assert(!rules[j - 1].from.precedes(rules[0].from));
                lemma_precedes(rules[j - 1].from, rules[0].from, rule.from);
            }
        }
        assert(result =~= rules.insert(0, rule));
    }
}

/// Ordering the rules neither loses nor adds a rule, and afterwards no rule is more specific than
/// an earlier one.
pub proof fn law_rules_are_ordered(rules: Seq<RuleModel>)
    ensures
        is_ordered(ordered(rules)),
        forall|i: int, j: int|
            0 <= i < j < ordered(rules).len() ==> !(#[trigger] ordered(rules)[j]).from.beats(
                (#[trigger] ordered(rules)[i]).from,
            ),
        ordered(rules).to_multiset() == rules.to_multiset(),
    decreases rules.len(),
{
    broadcast use vstd::seq_lib::group_to_multiset_ensures;

    if rules.len() == 0 {
        assert(rules =~= ordered(rules));
    } else {
        let rest = rules.skip(1);
        law_rules_are_ordered(rest);
        lemma_placed_is_ordered(rules[0], ordered(rest));
        assert(rules =~= rest.insert(0, rules[0]));
    }
}

/// Whether a rule decides about a request: it applies, and every other rule that applies is less
/// specific, or equally specific and listed later.
pub open spec fn decides(rules: Seq<RuleModel>, request: Request, index: int) -> bool {
    &&& 0 <= index < rules.len()
    &&& applies(rules[index], request)
    &&& forall|other: int|
        0 <= other < rules.len() && other != index && applies(#[trigger] rules[other], request)
            ==> {
            ||| rules[index].from.beats(rules[other].from)
            ||| !rules[other].from.beats(rules[index].from) && index < other
        }
}

/// The rule that is found stands in the list and applies.
proof fn lemma_first_applicable(rules: Seq<RuleModel>, request: Request) -> (index: int)
    ensures
        match first_applicable(rules, request) {
            Some(rule) => 0 <= index < rules.len() && rules[index] == rule && applies(
                rule,
                request,
            ),
            None => forall|i: int| 0 <= i < rules.len() ==> !applies(#[trigger] rules[i], request),
        },
    decreases rules.len(),
{
    if rules.len() == 0 || applies(rules[0], request) {
        0
    } else {
        let rest = rules.skip(1);
        let index = lemma_first_applicable(rest, request);
        if first_applicable(rest, request) is None {
            assert forall|i: int| 0 <= i < rules.len() implies !applies(
                #[trigger] rules[i],
                request,
            ) by {
                if i > 0 {
                    assert(rest[i - 1] == rules[i]);
                }
            }
        }
        index + 1
    }
}

/// How placing a rule changes which rule is found: the new one is, if it applies and the one
/// found so far does not precede it.
proof fn lemma_first_placed(rule: RuleModel, rules: Seq<RuleModel>, request: Request)
    requires
        is_ordered(rules),
    ensures
        first_applicable(placed(rule, rules), request) == (match first_applicable(rules, request) {
            Some(found) => if applies(rule, request) && !found.from.precedes(rule.from) {
                Some(rule)
            } else {
                Some(found)
            },
            None => if applies(rule, request) {
                Some(rule)
            } else {
                None
            },
        }),
    decreases rules.len(),
{
    let index = lemma_first_applicable(rules, request);
    if rules.len() > 0 && rules[0].from.precedes(rule.from) {
        let rest = rules.skip(1);
        assert forall|i: int, j: int| 0 <= i < j < rest.len() implies !(
        #[trigger] rest[j]).from.precedes((#[trigger] rest[i]).from) by {
            assert(rest[i] == rules[i + 1] && rest[j] == rules[j + 1]);
        }
        lemma_first_placed(rule, rest, request);
        assert(placed(rule, rules).skip(1) =~= placed(rule, rest));
    } else {
        assert(placed(rule, rules).skip(1) =~= rules);
        if first_applicable(rules, request) is Some && index > 0 {
            assert(!rules[index].from.precedes(rules[0].from));
            lemma_precedes(rules[index].from, rules[0].from, rule.from);
        }
    }
}

/// A request is handled by the most specific rule that applies to it. Among equally specific
/// rules the one listed first takes precedence. If no rule applies, none is found.
pub proof fn law_most_specific_rule_decides(rules: Seq<RuleModel>, request: Request)
    ensures
        match first_applicable(ordered(rules), request) {
            Some(rule) => exists|index: int|
                #[trigger] decides(rules, request, index) && rules[index] == rule,
            None => forall|i: int| 0 <= i < rules.len() ==> !applies(#[trigger] rules[i], request),
        },
    decreases rules.len(),
{
    if rules.len() > 0 {
        let rule = rules[0];
        let rest = rules.skip(1);
        law_most_specific_rule_decides(rest, request);
        law_rules_are_ordered(rest);
        lemma_first_placed(rule, ordered(rest), request);
        assert forall|i: int| 0 < i < rules.len() implies #[trigger] rules[i] == rest[i - 1] by {}
        match first_applicable(ordered(rest), request) {
            Some(found) => {
                let index = choose|index: int|
                    #[trigger] decides(rest, request, index) && rest[index] == found;
                if applies(rule, request) {
                    let path = segments(path_bytes(request));
                    lemma_precedes_on_path(found.from, rule.from, path);
                    lemma_precedes_on_path(rule.from, found.from, path);
                }
                if applies(rule, request) && !found.from.precedes(rule.from) {
                    assert(decides(rules, request, 0));
                } else {
                    assert(rules[index + 1] == found);
                    assert(decides(rules, request, index + 1));
                }
            },
            None => {
                if applies(rule, request) {
                    assert(decides(rules, request, 0));
                }
            },
        }
    }
}

/// There is at most one rule that decides about a request.
pub proof fn law_deciding_rule_is_unique(
    rules: Seq<RuleModel>,
    request: Request,
    a: int,
    b: int,
)
    requires
        decides(rules, request, a),
        decides(rules, request, b),
    ensures
        a == b,
{
    if a != b {
        assert(applies(rules[a], request) && applies(rules[b], request));
    }
}

/// A handler does to a request what the deciding rule of its configuration says, and nothing if
/// no rule applies.
pub proof fn law_configuration_decides(rules: Seq<RuleModel>, request: Request, index: int)
    ensures
        decides(rules, request, index) ==> list_action(ordered(rules), request) == rule_action(
            rules[index],
            request,
        ),
        (forall|i: int| 0 <= i < rules.len() ==> !applies(#[trigger] rules[i], request))
            ==> list_action(ordered(rules), request) == Ok::<_, Error>(ActionModel::Pass),
{
    law_most_specific_rule_decides(rules, request);
    if decides(rules, request, index) {
        assert(applies(rules[index], request));
        let found = choose|found: int|
            #[trigger] decides(rules, request, found) && rules[found] == first_applicable(
                ordered(rules),
                request,
            )->0;
        law_deciding_rule_is_unique(rules, request, found, index);
    }
}

/// It makes no difference in which order two rules for different paths are placed.
proof fn lemma_placed_commutes(a: RuleModel, b: RuleModel, rules: Seq<RuleModel>)
    requires
        a.from != b.from,
    ensures
        placed(a, placed(b, rules)) == placed(b, placed(a, rules)),
    decreases rules.len(),
{
    lemma_precedes(a.from, b.from, a.from);
    if rules.len() == 0 {
        assert(placed(b, rules).skip(1) =~= rules && placed(a, rules).skip(1) =~= rules);
    } else {
        let first = rules[0].from;
        let rest = rules.skip(1);
        assert(rules =~= seq![rules[0]] + rest);
        assert((seq![a] + rules).skip(1) =~= rules && (seq![b] + rules).skip(1) =~= rules);
        assert((seq![rules[0]] + placed(a, rest)).skip(1) =~= placed(a, rest));
        assert((seq![rules[0]] + placed(b, rest)).skip(1) =~= placed(b, rest));
        if first.precedes(a.from) && first.precedes(b.from) {
            lemma_placed_commutes(a, b, rest);
        } else {
            lemma_precedes(first, b.from, a.from);
            lemma_precedes(first, a.from, b.from);
        }
    }
}

/// The rules with two neighbors exchanged.
pub open spec fn exchanged(rules: Seq<RuleModel>, index: int) -> Seq<RuleModel> {
    rules.update(index, rules[index + 1]).update(index + 1, rules[index])
}

/// The order in which rules for different paths are listed makes no difference: exchanging two
/// such neighbors in the configuration results in the same handler.
pub proof fn law_unrelated_rules_can_be_exchanged(rules: Seq<RuleModel>, index: int)
    requires
        0 <= index < rules.len() - 1,
        rules[index].from != rules[index + 1].from,
    ensures
        ordered(exchanged(rules, index)) == ordered(rules),
    decreases index,
{
    let other = exchanged(rules, index);
    if index == 0 {
        let rest = ordered(rules.skip(2));
        assert(rules.skip(1).skip(1) =~= rules.skip(2));
        assert(other.skip(1).skip(1) =~= rules.skip(2));
        reveal_with_fuel(ordered, 3);
        lemma_placed_commutes(rules[0], rules[1], rest);
    } else {
        law_unrelated_rules_can_be_exchanged(rules.skip(1), index - 1);
        assert(other.skip(1) =~= exchanged(rules.skip(1), index - 1));
    }
}

/// Whether bytes are the tail that remains of a path without a prefix: the end of the path behind
/// the segments of the prefix, a slash if nothing follows these, and all of the path if it does not
/// start with the prefix.
pub open spec fn is_tail_of(tail: Seq<u8>, prefix: Seq<Seq<u8>>, path: Seq<u8>) -> bool {
    if prefix.is_prefix_of(segments(path)) {
        &&& segments(path) == prefix + segments(tail)
        &&& {
            ||| exists|head: Seq<u8>|
                path == #[trigger] (head + tail) && segments(head) == prefix && tail.len() > 0 && (
                head.len() > 0 ==> head.last() != 0x2f && tail[0] == 0x2f)
            ||| tail == seq![0x2fu8] && segments(path) == prefix && (path.len() > 0 ==> path.last()
                != 0x2f)
        }
    } else {
        tail == path
    }
}

/// The tail that a rule makes use of has exactly those segments of the path that do not belong to
/// the rule, and it is the end of the path unless nothing is left. If the rule is for all paths it
/// is the entire path.
pub proof fn law_rule_tail(rule: RuleModel, request: Request)
    ensures
        ({
            let path = encode_utf8(request.path@);
            let tail = rule_tail(rule, request);
            if rule.from.path.is_prefix_of(segments(path)) {
                &&& segments(path) == rule.from.path + segments(tail)
                &&& {
                    ||| exists|head: Seq<u8>|
                        path == #[trigger] (head + tail) && segments(head) == rule.from.path
                            && tail.len() > 0 && (head.len() > 0 ==> head.last() != 0x2f && tail[0]
                            == 0x2f)
                    ||| tail == seq![0x2fu8] && segments(path) == rule.from.path && (path.len() > 0
                        ==> path.last() != 0x2f)
                }
                &&& rule.from.path.len() == 0 && path.len() > 0 ==> tail == path
            } else {
                tail == path
            }
        }),
        is_tail_of(rule_tail(rule, request), rule.from.path, encode_utf8(request.path@)),
        rule_target(rule, request) == expanded(
            rule.to,
            variables(request, rule_tail(rule, request)),
        ),
{
    let path = encode_utf8(request.path@);
    if rule.from.path.is_prefix_of(segments(path)) {
        law_prefix_and_tail(rule.from.path, path);
        law_tail(rule.from.path, path);
    }
}

/// A template that consists of the variable for the tail only is replaced by the tail.
proof fn lemma_tail_template(request: Request, tail: Seq<u8>)
    ensures
        expanded(encode_utf8("${tail}"@), variables(request, tail)) == tail,
{
    reveal_strlit("${tail}");
    reveal_strlit("tail");
    is_ascii_chars_encode_utf8("${tail}"@);
    is_ascii_chars_encode_utf8("tail"@);
    let name = encode_utf8("tail"@);
    let values = variables(request, tail);
    let template = encode_utf8("${tail}"@);
    assert(template =~= seq![0x24u8, 0x7bu8] + name + seq![0x7du8] + Seq::empty());
    assert(name =~= seq![0x74u8, 0x61u8, 0x69u8, 0x6cu8]);
    law_variables(request, tail, name, Seq::empty());
    law_variable_is_replaced(name, Seq::empty(), values);
    law_plain_text_is_copied(Seq::empty(), Seq::empty(), values);
    assert(tail + Seq::empty() =~= tail);
}

/// In the new address, the variable for the tail is replaced by what remains of the path without
/// the path of the rule, whatever text stands around it.
pub proof fn law_target_contains_tail(
    rule: RuleModel,
    request: Request,
    before: Seq<u8>,
    after: Seq<u8>,
)
    requires
        !before.contains(0x24),
        !after.contains(0x24),
        rule.to == before + encode_utf8("${tail}"@) + after,
        rule.from.path.is_prefix_of(segments(encode_utf8(request.path@))),
    ensures
        exists|tail: Seq<u8>|
            {
                &&& rule_target(rule, request) == before + tail + after
                &&& segments(encode_utf8(request.path@)) == rule.from.path + #[trigger] segments(
                    tail,
                )
                &&& rule.from.path.len() == 0 && request.path@.len() > 0 ==> tail == encode_utf8(
                    request.path@,
                )
            },
{
    reveal_strlit("${tail}");
    reveal_strlit("tail");
    is_ascii_chars_encode_utf8("${tail}"@);
    is_ascii_chars_encode_utf8("tail"@);
    let name = encode_utf8("tail"@);
    let tail = rule_tail(rule, request);
    let values = variables(request, tail);
    let variable = encode_utf8("${tail}"@);
    assert(variable =~= seq![0x24u8, 0x7bu8] + name + seq![0x7du8]);
    assert(name =~= seq![0x74u8, 0x61u8, 0x69u8, 0x6cu8]);
    law_variables(request, tail, name, Seq::empty());
    law_plain_text_is_copied(before, variable + after, values);
    law_variable_is_replaced(name, after, values);
    law_plain_text_is_copied(after, Seq::empty(), values);
    assert(after + Seq::empty() =~= after);
    assert(before + variable + after =~= before + (variable + after));
    assert(rule_target(rule, request) =~= before + tail + after);
    law_rule_tail(rule, request);
    if request.path@.len() > 0 {
        encode_utf8_decode_utf8(request.path@);
        if encode_utf8(request.path@).len() == 0 {
            encode_utf8_decode_utf8(Seq::empty());
            assert(encode_utf8(Seq::<char>::empty()) =~= encode_utf8(request.path@));
        }
    }
    assert(segments(encode_utf8(request.path@)) == rule.from.path + segments(tail));
}

/// A rule applies to a request if and only if its pattern selects the path, its first regular
/// expression finds something in the entire path, and its second one finds something in the query
/// string, which is empty if there is none. Negated expressions must not find anything, and
/// expressions that a rule does not have do not matter.
pub proof fn law_rule_applies(rule: RuleModel, request: Request)
    ensures
        ({
            let path = segments(encode_utf8(request.path@));
            let query = if request.query is Some {
                request.query->0@
            } else {
                Seq::empty()
            };
            applies(rule, request) <==> {
                &&& if rule.from.exact {
                    path == rule.from.path
                } else {
                    rule.from.path.is_prefix_of(path)
                }
                &&& rule.from_regex matches Some(regex) ==> (regex_finds(
                    regex.pattern,
                    request.path@,
                ) <==> !regex.negate)
                &&& rule.query_regex matches Some(regex) ==> (regex_finds(regex.pattern, query)
                    <==> !regex.negate)
            }
        }),
{
}

/// An internal rule never results in a response, the other ones never in a changed address. The
/// response of a rule of type redirect has status code 307, that of a permanent one 308, and its
/// location is the new address. Nothing but the new address decides whether there is a response.
pub proof fn law_rule_action(rule: RuleModel, request: Request)
    ensures
        ({
            let target = rule_target(rule, request);
            let action = rule_action(rule, request);
            &&& rule.kind is Internal ==> (match parsed_uri(target) {
                Some(address) => action == Ok::<_, Error>(ActionModel::SetUri(address)),
                None => action == Ok::<_, Error>(
                    ActionModel::Unusable(TargetProblem::NotUri, target),
                ),
            })
            &&& rule.kind !is Internal && !valid_utf8(target) ==> action == Ok::<_, Error>(
                ActionModel::Unusable(TargetProblem::NotText, target),
            )
            &&& rule.kind !is Internal && valid_utf8(target) && !is_header_text(
                decode_utf8(target),
            ) ==> action == Err::<ActionModel, _>(Error::InvalidHeader)
            &&& rule.kind !is Internal && valid_utf8(target) && is_header_text(decode_utf8(target))
                ==> {
                &&& action is Ok && action->Ok_0 is Respond
                &&& {
                    let response = action->Ok_0->Respond_0;
                    &&& rule.kind is Redirect ==> response.status == 307
                    &&& rule.kind is Permanent ==> response.status == 308
                    &&& response.headers.len() == 3
                    &&& response.headers[2] == ("location"@, decode_utf8(target))
                    &&& response.body is None <==> request.method@ == "HEAD"@
                }
            }
        }),
{
    let location = decode_utf8(rule_target(rule, request));
    law_standard_response(request.method@, 307, Some(location));
    law_standard_response(request.method@, 308, Some(location));
}

/// The first rule of a list that applies decides, the ones behind it do not matter. If none
/// applies nothing happens to the request.
pub proof fn law_first_rule_decides(rules: Seq<RuleModel>, request: Request, index: int)
    ensures
        0 <= index < rules.len() && applies(rules[index], request) && (forall|i: int|
            0 <= i < index ==> !applies(#[trigger] rules[i], request)) ==> list_action(
            rules,
            request,
        ) == rule_action(rules[index], request),
        (forall|i: int| 0 <= i < rules.len() ==> !applies(#[trigger] rules[i], request))
            ==> list_action(rules, request) == Ok::<_, Error>(ActionModel::Pass),
    decreases rules.len(),
{
    if rules.len() > 0 && !applies(rules[0], request) {
        let rest = rules.skip(1);
        law_first_rule_decides(rest, request, index - 1);
        assert forall|i: int| 0 <= i < rest.len() implies #[trigger] rest[i] == rules[i + 1] by {}
    } else if rules.len() > 0 && 0 < index {
        assert(applies(rules[0], request));
    }
}

/// A rule that applies decides about a request if every other rule that applies has a shorter
/// path, or a path of the same length but is a prefix rule where this one is exact, or is listed
/// behind it and is neither exact where this one is not nor has the longer path.
pub proof fn law_listed_rule_decides(rules: Seq<RuleModel>, request: Request, index: int)
    requires
        0 <= index < rules.len(),
        applies(rules[index], request),
        forall|i: int|
            0 <= i < rules.len() && i != index && applies(#[trigger] rules[i], request) ==> {
                let other = rules[i].from;
                let this = rules[index].from;
                ||| this.path.len() > other.path.len()
                ||| this.path.len() == other.path.len() && this.exact && !other.exact
                ||| this.path.len() == other.path.len() && this.exact == other.exact && index < i
            },
    ensures
        list_action(ordered(rules), request) == rule_action(rules[index], request),
{
    assert(decides(rules, request, index));
    law_configuration_decides(rules, request, index);
}

/// What an action says is what it consists of.
pub proof fn law_action_model(action: RewriteAction)
    ensures
        action@ is Pass <==> action is Pass,
        action matches RewriteAction::Unusable(problem, target) ==> action@
            == ActionModel::Unusable(problem, target@),
        action matches RewriteAction::SetUri(address) ==> action@ == ActionModel::SetUri(
            (address.uri, address.text@),
        ),
        action matches RewriteAction::Respond(response) ==> action@ == ActionModel::Respond(
            response@,
        ),
        outcome(Ok(action)) == Ok::<_, Error>(action@),
        outcome(Err(Error::InvalidHeader)) == Err::<ActionModel, _>(Error::InvalidHeader),
{
}

} // verus!
