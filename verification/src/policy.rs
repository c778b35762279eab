//! The policy store and the policy engine: who may do what, decided from
//! rules over subjects, path patterns and actions.

use crate::matcher::{
    action_matches, is_literal, lemma_literal_pattern_matches_itself_only, match_action,
    match_path, match_segments, segment_views, segments, split_segments, wildcard_matches,
};
use crate::models::User;
use crate::roles::{
    holds_role, link_views, marks_memberships, memberships, subject_matches,
    GroupingView, Link,
};
use crate::text::{chars_eq, chars_of};
use vstd::prelude::*;

verus! {

/// How the object of a rule is compared with the object of a request.
#[derive(Clone, Copy, Debug, PartialEq, Eq, Structural)]
pub enum ObjectMatcher {
    /// The two must be the same string.
    Exact,
    /// The object of the rule is a path pattern, in which a segment `*`
    /// stands for any one segment.
    Wildcard,
}

/// Why a policy could not be loaded.
#[derive(Clone, Copy, Debug, PartialEq, Eq, Structural)]
pub enum PolicyLoadFailure {
    /// The model does not define requests as subject, object and action.
    MalformedModel,
    /// The rule in row `row` is not a subject, an object and an action.
    MalformedRule { row: usize },
    /// The role assignment in row `row` is not a subject and a role.
    MalformedGrouping { row: usize },
}

/// The shape of the policy: requests and rules are triples of subject,
/// object and action, and objects are compared by `object_matcher`.
#[derive(Clone, Copy, Debug, PartialEq, Eq, Structural)]
pub struct Model {
    pub object_matcher: ObjectMatcher,
}

/// One rule: `subject`, a user or a role, may perform `action` on the
/// objects that `object` covers.
#[derive(Clone, Debug, PartialEq, Eq)]
pub struct PolicyRule {
    pub subject: String,
    pub object: String,
    pub action: String,
}

/// One role assignment: `subject` belongs to `role`.
#[derive(Clone, Debug, PartialEq, Eq)]
pub struct Grouping {
    pub subject: String,
    pub role: String,
}

/// The outcome of the policy check for one request.
#[derive(Clone, Debug, PartialEq, Eq)]
pub struct AuthorizationDecision {
    pub identity: User,
    pub allowed: bool,
}

/// Mathematical model of a [`PolicyRule`].
pub struct RuleView {
    pub subject: Seq<char>,
    pub object: Seq<char>,
    pub action: Seq<char>,
}

impl View for PolicyRule {
    type V = RuleView;

    open spec fn view(&self) -> RuleView {
        RuleView { subject: self.subject@, object: self.object@, action: self.action@ }
    }
}

impl View for Grouping {
    type V = GroupingView;

    open spec fn view(&self) -> GroupingView {
        GroupingView { subject: self.subject@, role: self.role@ }
    }
}

/// Mathematical model of a [`PolicyStore`]: the rules and role assignments
/// in the order in which they were loaded.
pub struct PolicyView {
    pub matcher: ObjectMatcher,
    pub rules: Seq<RuleView>,
    pub groupings: Seq<GroupingView>,
}

/// Whether the object of a rule covers the object of a request.
pub open spec fn object_matches(
    matcher: ObjectMatcher,
    pattern: Seq<char>,
    candidate: Seq<char>,
) -> bool {
    match matcher {
        ObjectMatcher::Exact => pattern == candidate,
        ObjectMatcher::Wildcard => wildcard_matches(pattern, candidate),
    }
}

impl PolicyView {
    /// Whether a request by `request_subject` for `request_object` falls
    /// under a rule for `rule_subject` and `rule_object`.
    pub open spec fn matches(
        self,
        request_subject: Seq<char>,
        request_object: Seq<char>,
        rule_subject: Seq<char>,
        rule_object: Seq<char>,
    ) -> bool {
        &&& subject_matches(self.groupings, request_subject, rule_subject)
        &&& object_matches(self.matcher, rule_object, request_object)
    }

    /// Whether `rule` grants the request: its subject, its object and its
    /// action all match.
    pub open spec fn rule_grants(
        self,
        rule: RuleView,
        subject: Seq<char>,
        object: Seq<char>,
        action: Seq<char>,
    ) -> bool {
        &&& self.matches(subject, object, rule.subject, rule.object)
        &&& action_matches(rule.action, action)
    }

    /// Whether the policy allows the request: some rule grants it.
    pub open spec fn allows(
        self,
        subject: Seq<char>,
        object: Seq<char>,
        action: Seq<char>,
    ) -> bool {
        exists|i: int|
            0 <= i < self.rules.len() && self.rule_grants(
                #[trigger] self.rules[i],
                subject,
                object,
                action,
            )
    }
}

/// The models of a list of rules.
pub open spec fn rule_views(rules: Seq<PolicyRule>) -> Seq<RuleView> {
    rules.map_values(|r: PolicyRule| r@)
}

/// The models of a list of role assignments.
pub open spec fn grouping_views(groupings: Seq<Grouping>) -> Seq<GroupingView> {
    groupings.map_values(|g: Grouping| g@)
}

/// The fields of one row of a policy definition.
pub open spec fn fields(row: Vec<String>) -> Seq<Seq<char>> {
    row@.map_values(|s: String| s@)
}

/// Whether every row has `width` fields.
pub open spec fn all_of_width(rows: Seq<Vec<String>>, width: nat) -> bool {
    forall|i: int| 0 <= i < rows.len() ==> (#[trigger] rows[i]).len() == width
}

/// Whether `row` is the first row that does not have `width` fields.
pub open spec fn is_first_malformed(rows: Seq<Vec<String>>, width: nat, row: int) -> bool {
    &&& 0 <= row < rows.len()
    &&& rows[row].len() != width
    &&& all_of_width(rows.take(row), width)
}

/// The rules that rows of three fields stand for.
pub open spec fn rules_of_rows(rows: Seq<Vec<String>>) -> Seq<RuleView> {
    rows.map_values(
        |row: Vec<String>|
            RuleView { subject: fields(row)[0], object: fields(row)[1], action: fields(row)[2] },
    )
}

/// The role assignments that rows of two fields stand for.
pub open spec fn groupings_of_rows(rows: Seq<Vec<String>>) -> Seq<GroupingView> {
    rows.map_values(
        |row: Vec<String>| GroupingView { subject: fields(row)[0], role: fields(row)[1] },
    )
}

/// A rule as the store keeps it: its three parts as characters, and its
/// object split into segments once and for all.
struct StoredRule {
    subject: Vec<char>,
    object: Vec<char>,
    object_segments: Vec<Vec<char>>,
    action: Vec<char>,
}

impl StoredRule {
    spec fn well_formed(&self) -> bool {
        segment_views(self.object_segments@) == segments(self.object@)
    }

    spec fn rule(&self) -> RuleView {
        RuleView { subject: self.subject@, object: self.object@, action: self.action@ }
    }

    fn new(subject: &str, object: &str, action: &str) -> (stored: StoredRule)
        ensures
            stored.well_formed(),
            stored.rule() == (RuleView { subject: subject@, object: object@, action: action@ }),
    {
        let object = chars_of(object);
        let object_segments = split_segments(&object);
        StoredRule { subject: chars_of(subject), object, object_segments, action: chars_of(action) }
    }
}

/// The policy store: the model and the rules and role assignments loaded
/// at startup. It never changes afterwards.
pub struct PolicyStore {
    matcher: ObjectMatcher,
    rules: Vec<StoredRule>,
    links: Vec<Link>,
}

impl View for PolicyStore {
    type V = PolicyView;

    closed spec fn view(&self) -> PolicyView {
        PolicyView {
            matcher: self.matcher,
            rules: self.rules@.map_values(|r: StoredRule| r.rule()),
            groupings: link_views(self.links@),
        }
    }
}

impl Model {
    /// Builds the model from the fields that a request is defined to have
    /// and the way objects are to be compared. A request definition that
    /// does not name exactly three fields, for subject, object and action,
    /// is refused.
    pub fn load(request: &Vec<String>, object_matcher: ObjectMatcher) -> (r: Result<
        Model,
        PolicyLoadFailure,
    >)
        ensures
            r == if request.len() == 3 {
                Ok::<Model, PolicyLoadFailure>(Model { object_matcher })
            } else {
                Err::<Model, PolicyLoadFailure>(PolicyLoadFailure::MalformedModel)
            },
    {
        if request.len() == 3 {
            Ok(Model { object_matcher })
        } else {
            Err(PolicyLoadFailure::MalformedModel)
        }
    }
}

/// Finds the first row that does not have `width` fields.
fn first_malformed(rows: &Vec<Vec<String>>, width: usize) -> (found: Option<usize>)
    ensures
        match found {
            Some(row) => is_first_malformed(rows@, width as nat, row as int),
            None => all_of_width(rows@, width as nat),
        },
{
    let mut i: usize = 0;
    while i < rows.len()
        invariant
            i <= rows.len(),
            all_of_width(rows@.take(i as int), width as nat),
        decreases rows.len() - i,
    {
        if rows[i].len() != width {
            return Some(i);
        }
        assert forall|j: int| 0 <= j < i + 1 implies (#[trigger] rows@.take(i + 1)[j]).len()
            == width by {
            if j < i {
                assert(rows@.take(i as int)[j] == rows@[j]);
            }
        }
        i += 1;
    }
    assert(rows@.take(rows.len() as int) =~= rows@);
    None
}

impl PolicyStore {
    #[verifier::type_invariant]
    spec fn well_formed(&self) -> bool {
        forall|i: int| 0 <= i < self.rules.len() ==> (#[trigger] self.rules[i]).well_formed()
    }

    /// Builds the store from rules and role assignments.
    pub fn new(model: Model, rules: &Vec<PolicyRule>, groupings: &Vec<Grouping>) -> (store:
        PolicyStore)
        ensures
            store@ == (PolicyView {
                matcher: model.object_matcher,
                rules: rule_views(rules@),
                groupings: grouping_views(groupings@),
            }),
    {
        let mut stored: Vec<StoredRule> = Vec::new();
        let mut i: usize = 0;
        while i < rules.len()
            invariant
                i <= rules.len(),
                stored.len() == i,
                forall|j: int| 0 <= j < i ==> (#[trigger] stored[j]).well_formed(),
                forall|j: int| 0 <= j < i ==> (#[trigger] stored[j]).rule() == rules[j]@,
            decreases rules.len() - i,
        {
            let rule = &rules[i];
            stored.push(
                StoredRule::new(rule.subject.as_str(), rule.object.as_str(), rule.action.as_str()),
            );
            i += 1;
        }
        let mut links: Vec<Link> = Vec::new();
        let mut k: usize = 0;
        while k < groupings.len()
            invariant
                k <= groupings.len(),
                links.len() == k,
                forall|j: int| 0 <= j < k ==> (#[trigger] links[j])@ == groupings[j]@,
            decreases groupings.len() - k,
        {
            let grouping = &groupings[k];
            links.push(
                Link {
                    subject: chars_of(grouping.subject.as_str()),
                    role: chars_of(grouping.role.as_str()),
                },
            );
            k += 1;
        }
        let store = PolicyStore { matcher: model.object_matcher, rules: stored, links };
        assert(store@.rules =~= rule_views(rules@));
        assert(store@.groupings =~= grouping_views(groupings@));
        store
    }

    /// Loads the store from the rows of a policy definition: each rule row
    /// holds a subject, an object and an action, each role assignment row a
    /// subject and a role. The first row of another shape makes the load
    /// fail; rule rows are looked at before role assignment rows.
    pub fn load(model: Model, rules: &Vec<Vec<String>>, groupings: &Vec<Vec<String>>) -> (r:
        Result<PolicyStore, PolicyLoadFailure>)
        ensures
            match r {
                Ok(store) => {
                    &&& all_of_width(rules@, 3)
                    &&& all_of_width(groupings@, 2)
                    &&& store@ == (PolicyView {
                        matcher: model.object_matcher,
                        rules: rules_of_rows(rules@),
                        groupings: groupings_of_rows(groupings@),
                    })
                },
                Err(PolicyLoadFailure::MalformedRule { row }) => is_first_malformed(
                    rules@,
                    3,
                    row as int,
                ),
                Err(PolicyLoadFailure::MalformedGrouping { row }) => {
                    &&& all_of_width(rules@, 3)
                    &&& is_first_malformed(groupings@, 2, row as int)
                },
                Err(PolicyLoadFailure::MalformedModel) => false,
            },
    {
        if let Some(row) = first_malformed(rules, 3) {
            return Err(PolicyLoadFailure::MalformedRule { row });
        }
        if let Some(row) = first_malformed(groupings, 2) {
            return Err(PolicyLoadFailure::MalformedGrouping { row });
        }
        let mut typed_rules: Vec<PolicyRule> = Vec::new();
        let mut i: usize = 0;
        while i < rules.len()
            invariant
                i <= rules.len(),
                all_of_width(rules@, 3),
                typed_rules.len() == i,
                forall|j: int|
                    0 <= j < i ==> (#[trigger] typed_rules[j])@ == rules_of_rows(rules@)[j],
            decreases rules.len() - i,
        {
            let row = &rules[i];
            assert(row.len() == 3);
            typed_rules.push(
                PolicyRule {
                    subject: row[0].clone(),
                    object: row[1].clone(),
                    action: row[2].clone(),
                },
            );
            i += 1;
        }
        let mut typed_groupings: Vec<Grouping> = Vec::new();
        let mut k: usize = 0;
        while k < groupings.len()
            invariant
                k <= groupings.len(),
                all_of_width(groupings@, 2),
                typed_groupings.len() == k,
                forall|j: int|
                    0 <= j < k ==> (#[trigger] typed_groupings[j])@ == groupings_of_rows(
                        groupings@,
                    )[j],
            decreases groupings.len() - k,
        {
            let row = &groupings[k];
            assert(row.len() == 2);
            typed_groupings.push(Grouping { subject: row[0].clone(), role: row[1].clone() });
            k += 1;
        }
        assert(rule_views(typed_rules@) =~= rules_of_rows(rules@));
        assert(grouping_views(typed_groupings@) =~= groupings_of_rows(groupings@));
        Ok(PolicyStore::new(model, &typed_rules, &typed_groupings))
    }

    /// Decides whether the object of a rule covers the object of a request.
    fn object_applies(
        &self,
        rule: &StoredRule,
        object: &Vec<char>,
        object_segments: &Vec<Vec<char>>,
    ) -> (applies: bool)
        requires
            rule.well_formed(),
            segment_views(object_segments@) == segments(object@),
        ensures
            applies == object_matches(self@.matcher, rule.rule().object, object@),
    {
        match self.matcher {
            ObjectMatcher::Exact => chars_eq(&rule.object, object),
            ObjectMatcher::Wildcard => match_segments(&rule.object_segments, object_segments),
        }
    }

    /// Decides whether the subject of a request falls under `rule_subject`.
    fn subject_applies(
        &self,
        subject: &Vec<char>,
        held: &Vec<bool>,
        rule_subject: &Vec<char>,
    ) -> (applies: bool)
        requires
            marks_memberships(self@.groupings, subject@, held@),
        ensures
            applies == subject_matches(self@.groupings, subject@, rule_subject@),
    {
        chars_eq(subject, rule_subject) || holds_role(
            &self.links,
            held,
            rule_subject,
            Ghost(subject@),
        )
    }

    /// Decides whether a request by `request_subject` for `request_object`
    /// falls under a rule for `rule_subject` and `rule_object`: the subject
    /// is the rule's subject or holds it as a role, and the rule's object
    /// covers the requested one.
    pub fn matches(
        &self,
        request_subject: &str,
        request_object: &str,
        rule_subject: &str,
        rule_object: &str,
    ) -> (matched: bool)
        ensures
            matched == self@.matches(
                request_subject@,
                request_object@,
                rule_subject@,
                rule_object@,
            ),
    {
        let subject = chars_of(request_subject);
        let held = memberships(&self.links, &subject);
        if !self.subject_applies(&subject, &held, &chars_of(rule_subject)) {
            return false;
        }
        match self.matcher {
            ObjectMatcher::Exact => chars_eq(&chars_of(rule_object), &chars_of(request_object)),
            ObjectMatcher::Wildcard => match_path(rule_object, request_object),
        }
    }

    /// Decides whether `subject` may perform `action` on `object`: yes if
    /// some rule grants it, no otherwise.
    pub fn is_allowed(&self, subject: &str, object: &str, action: &str) -> (allowed: bool)
        ensures
            allowed == self@.allows(subject@, object@, action@),
    {
        proof {
            use_type_invariant(self);
        }
        let who = chars_of(subject);
        let what = chars_of(object);
        let how = chars_of(action);
        let what_segments = split_segments(&what);
        let held = memberships(&self.links, &who);
        let mut i: usize = 0;
        while i < self.rules.len()
            invariant
                i <= self.rules.len(),
                self.well_formed(),
                who@ == subject@,
                what@ == object@,
                how@ == action@,
                segment_views(what_segments@) == segments(what@),
                marks_memberships(self@.groupings, who@, held@),
                forall|j: int|
                    0 <= j < i ==> !self@.rule_grants(
                        #[trigger] self@.rules[j],
                        subject@,
                        object@,
                        action@,
                    ),
            decreases self.rules.len() - i,
        {
            let rule = &self.rules[i];
            assert(self@.rules[i as int] == rule.rule());
            if self.subject_applies(&who, &held, &rule.subject) && self.object_applies(
                rule,
                &what,
                &what_segments,
            ) && match_action(&rule.action, &how) {
                return true;
            }
            i += 1;
        }
        false
    }

    /// Runs the policy check for an authenticated request: `identity` asks
    /// for `method` on `path`.
    pub fn decide(&self, identity: User, path: &str, method: &str) -> (decision:
        AuthorizationDecision)
        ensures
            decision.identity == identity,
            decision.allowed == self@.allows(identity@.name, path@, method@),
    {
        let allowed = self.is_allowed(identity.name.as_str(), path, method);
        AuthorizationDecision { identity, allowed }
    }
}

/// Where a pattern holds no wildcard, the way objects are compared makes no
/// difference: the pattern covers itself and nothing else.
pub proof fn lemma_matchers_agree_on_literals(pattern: Seq<char>, candidate: Seq<char>)
    requires
        is_literal(pattern),
    ensures
        object_matches(ObjectMatcher::Wildcard, pattern, candidate) == object_matches(
            ObjectMatcher::Exact,
            pattern,
            candidate,
        ),
{
    lemma_literal_pattern_matches_itself_only(pattern, candidate);
}

/// Default deny: a policy without rules allows nothing.
pub proof fn lemma_default_deny(
    policy: PolicyView,
    subject: Seq<char>,
    object: Seq<char>,
    action: Seq<char>,
)
    requires
        policy.rules.len() == 0,
    ensures
        !policy.allows(subject, object, action),
{
}

/// The decision is a function of the request and of what the store holds:
/// stores that hold the same policy decide every request alike.
pub proof fn lemma_decision_is_stable(
    first: &PolicyStore,
    second: &PolicyStore,
    subject: Seq<char>,
    object: Seq<char>,
    action: Seq<char>,
)
    requires
        first@ == second@,
    ensures
        first@.allows(subject, object, action) == second@.allows(subject, object, action),
{
}

/// Rules only grant: a request that a policy allows stays allowed when
/// rules are added.
pub proof fn lemma_more_rules_allow_more(
    policy: PolicyView,
    more: Seq<RuleView>,
    subject: Seq<char>,
    object: Seq<char>,
    action: Seq<char>,
)
    requires
        policy.allows(subject, object, action),
    ensures
        (PolicyView { rules: policy.rules + more, ..policy }).allows(subject, object, action),
{
    let i = choose|i: int|
        0 <= i < policy.rules.len() && policy.rule_grants(
            #[trigger] policy.rules[i],
            subject,
            object,
            action,
        );
    let extended = PolicyView { rules: policy.rules + more, ..policy };
    assert(extended.rules[i] == policy.rules[i]);
}

} // verus!
