//! Role membership: which roles a subject holds, directly or through other
//! roles.

use crate::text::chars_eq;
use vstd::prelude::*;

verus! {

/// Mathematical model of a role assignment: `subject` belongs to `role`.
pub struct GroupingView {
    pub subject: Seq<char>,
    pub role: Seq<char>,
}

/// A role assignment as the policy store keeps it.
pub struct Link {
    pub subject: Vec<char>,
    pub role: Vec<char>,
}

impl View for Link {
    type V = GroupingView;

    open spec fn view(&self) -> GroupingView {
        GroupingView { subject: self.subject@, role: self.role@ }
    }
}

/// The models of a list of role assignments.
pub open spec fn link_views(links: Seq<Link>) -> Seq<GroupingView> {
    links.map_values(|l: Link| l@)
}

/// Whether member `i` of `chain` belongs directly to the member after it.
pub open spec fn belongs_to_next(
    groupings: Seq<GroupingView>,
    chain: Seq<Seq<char>>,
    i: int,
) -> bool {
    groupings.contains(GroupingView { subject: chain[i], role: chain[i + 1] })
}

/// Whether each member of `chain` belongs directly to the next one.
pub open spec fn is_membership_chain(groupings: Seq<GroupingView>, chain: Seq<Seq<char>>) -> bool {
    &&& chain.len() >= 1
    &&& forall|i: int| 0 <= i < chain.len() - 1 ==> #[trigger] belongs_to_next(groupings, chain, i)
}

/// Whether `subject` belongs to `role`, directly or through a chain of
/// roles.
pub open spec fn has_role(
    groupings: Seq<GroupingView>,
    subject: Seq<char>,
    role: Seq<char>,
) -> bool {
    exists|chain: Seq<Seq<char>>|
        #[trigger] is_membership_chain(groupings, chain) && chain.len() >= 2 && chain.first()
            == subject && chain.last() == role
}

/// Whether the subject of a request falls under the subject of a rule: it
/// is that subject, or it holds it as a role.
pub open spec fn subject_matches(
    groupings: Seq<GroupingView>,
    request: Seq<char>,
    rule: Seq<char>,
) -> bool {
    request == rule || has_role(groupings, request, rule)
}

/// Whether `held` marks exactly the role assignments whose subject is
/// `subject` itself or a role that `subject` holds.
pub open spec fn marks_memberships(
    groupings: Seq<GroupingView>,
    subject: Seq<char>,
    held: Seq<bool>,
) -> bool {
    &&& held.len() == groupings.len()
    &&& forall|k: int|
        0 <= k < groupings.len() ==> (#[trigger] held[k] <==> subject_matches(
            groupings,
            subject,
            groupings[k].subject,
        ))
}

/// Membership carries over one more assignment: who falls under `middle`
/// holds every role that `middle` is assigned.
pub proof fn lemma_membership_extends(
    groupings: Seq<GroupingView>,
    subject: Seq<char>,
    middle: Seq<char>,
    role: Seq<char>,
)
    requires
        subject_matches(groupings, subject, middle),
        groupings.contains(GroupingView { subject: middle, role }),
    ensures
        has_role(groupings, subject, role),
{
    if subject == middle {
        let chain = seq![subject, role];
        assert forall|i: int| 0 <= i < chain.len() - 1 implies #[trigger] belongs_to_next(
            groupings,
            chain,
            i,
        ) by {
            assert(chain[0] == subject && chain[1] == role);
        }
        assert(is_membership_chain(groupings, chain));
    } else {
        let shorter = choose|chain: Seq<Seq<char>>|
            #[trigger] is_membership_chain(groupings, chain) && chain.len() >= 2 && chain.first()
                == subject && chain.last() == middle;
        let chain = shorter.push(role);
        assert forall|i: int| 0 <= i < chain.len() - 1 implies #[trigger] belongs_to_next(
            groupings,
            chain,
            i,
        ) by {
            if i < shorter.len() - 1 {
                assert(belongs_to_next(groupings, shorter, i));
                assert(chain[i] == shorter[i]);
                assert(chain[i + 1] == shorter[i + 1]);
            } else {
                assert(chain[i] == middle);
                assert(chain[i + 1] == role);
            }
        }
        assert(is_membership_chain(groupings, chain));
    }
}

/// Who falls under the first member of a chain holds every later member
/// of it as a role.
proof fn lemma_membership_along_chain(
    groupings: Seq<GroupingView>,
    subject: Seq<char>,
    chain: Seq<Seq<char>>,
    j: int,
)
    requires
        is_membership_chain(groupings, chain),
        subject_matches(groupings, subject, chain[0]),
        1 <= j < chain.len(),
    ensures
        has_role(groupings, subject, chain[j]),
    decreases j,
{
    if j > 1 {
        lemma_membership_along_chain(groupings, subject, chain, j - 1);
    }
    assert(belongs_to_next(groupings, chain, j - 1));
    lemma_membership_extends(groupings, subject, chain[j - 1], chain[j]);
}

/// Membership is transitive: who holds a role holds every role that this
/// role holds.
pub proof fn lemma_membership_transitive(
    groupings: Seq<GroupingView>,
    subject: Seq<char>,
    middle: Seq<char>,
    role: Seq<char>,
)
    requires
        has_role(groupings, subject, middle),
        has_role(groupings, middle, role),
    ensures
        has_role(groupings, subject, role),
{
    let second = choose|chain: Seq<Seq<char>>|
        #[trigger] is_membership_chain(groupings, chain) && chain.len() >= 2 && chain.first()
            == middle && chain.last() == role;
    lemma_membership_along_chain(groupings, subject, second, second.len() - 1);
}

/// A subject holds a role exactly when some assignment gives that role to
/// the subject itself or to a role that the subject holds.
pub proof fn lemma_role_by_last_assignment(
    groupings: Seq<GroupingView>,
    subject: Seq<char>,
    role: Seq<char>,
)
    ensures
        has_role(groupings, subject, role) <==> exists|k: int|
            0 <= k < groupings.len() && subject_matches(
                groupings,
                subject,
                (#[trigger] groupings[k]).subject,
            ) && groupings[k].role == role,
{
    if has_role(groupings, subject, role) {
        let chain = choose|chain: Seq<Seq<char>>|
            #[trigger] is_membership_chain(groupings, chain) && chain.len() >= 2 && chain.first()
                == subject && chain.last() == role;
        let last = chain.len() - 2;
        assert(belongs_to_next(groupings, chain, last));
        let link = GroupingView { subject: chain[last], role: chain[last + 1] };
        let k = choose|k: int| 0 <= k < groupings.len() && groupings[k] == link;
        if chain.len() > 2 {
            let shorter = chain.drop_last();
            assert forall|i: int| 0 <= i < shorter.len() - 1 implies #[trigger] belongs_to_next(
                groupings,
                shorter,
                i,
            ) by {
                assert(belongs_to_next(groupings, chain, i));
                assert(shorter[i] == chain[i]);
                assert(shorter[i + 1] == chain[i + 1]);
            }
            assert(is_membership_chain(groupings, shorter));
        }
        assert(subject_matches(groupings, subject, groupings[k].subject));
    }
    if exists|k: int|
        0 <= k < groupings.len() && subject_matches(
            groupings,
            subject,
            (#[trigger] groupings[k]).subject,
        ) && groupings[k].role == role {
        let k = choose|k: int|
            0 <= k < groupings.len() && subject_matches(
                groupings,
                subject,
                (#[trigger] groupings[k]).subject,
            ) && groupings[k].role == role;
        assert(groupings.contains(groupings[k]));
        lemma_membership_extends(groupings, subject, groupings[k].subject, role);
    }
}

/// The number of assignments that `held` leaves unmarked.
spec fn unmarked(held: Seq<bool>) -> nat
    decreases held.len(),
{
    if held.len() == 0 {
        0
    } else {
        unmarked(held.drop_last()) + if held.last() {
            0nat
        } else {
            1nat
        }
    }
}

/// Marking one more assignment leaves one fewer unmarked.
proof fn lemma_mark_one(held: Seq<bool>, k: int)
    requires
        0 <= k < held.len(),
        !held[k],
    ensures
        unmarked(held.update(k, true)) + 1 == unmarked(held),
    decreases held.len(),
{
    let marked = held.update(k, true);
    if k == held.len() - 1 {
        assert(marked.drop_last() =~= held.drop_last());
    } else {
        lemma_mark_one(held.drop_last(), k);
        assert(marked.drop_last() =~= held.drop_last().update(k, true));
    }
}

/// Whether everything that follows from assignment `m` being marked is
/// marked too: each assignment whose subject is the role of `m`.
spec fn propagated(groupings: Seq<GroupingView>, held: Seq<bool>, m: int) -> bool {
    forall|j: int|
        0 <= j < groupings.len() && groupings[j].subject == groupings[m].role
            ==> #[trigger] held[j]
}

/// Whether nothing is marked wrongly: each marked assignment applies to
/// `subject`.
spec fn sound(groupings: Seq<GroupingView>, subject: Seq<char>, held: Seq<bool>) -> bool {
    &&& held.len() == groupings.len()
    &&& forall|k: int|
        0 <= k < groupings.len() && #[trigger] held[k] ==> subject_matches(
            groupings,
            subject,
            groupings[k].subject,
        )
}

/// Whether the assignments of `subject` itself are marked.
spec fn seeded(groupings: Seq<GroupingView>, subject: Seq<char>, held: Seq<bool>) -> bool {
    &&& held.len() == groupings.len()
    &&& forall|k: int|
        0 <= k < groupings.len() && groupings[k].subject == subject ==> #[trigger] held[k]
}

/// Whether the work list holds marked assignments only.
spec fn pending(work: Seq<usize>, held: Seq<bool>) -> bool {
    forall|w: int| 0 <= w < work.len() ==> (#[trigger] work[w]) < held.len() && held[work[w] as int]
}

/// Whether every marked assignment is either still on the work list, or
/// the one in hand, or has had its consequences marked.
spec fn settled(
    groupings: Seq<GroupingView>,
    held: Seq<bool>,
    work: Seq<usize>,
    hand: int,
) -> bool {
    forall|p: int|
        0 <= p < groupings.len() && #[trigger] held[p] && !work.contains(p as usize) && p != hand
            ==> propagated(groupings, held, p)
}

/// Whether the marks are complete: the assignments of `subject` itself are
/// marked, and so is everything that follows from a marked one.
spec fn closed(groupings: Seq<GroupingView>, subject: Seq<char>, held: Seq<bool>) -> bool {
    &&& seeded(groupings, subject, held)
    &&& forall|m: int|
        0 <= m < groupings.len() && #[trigger] held[m] ==> propagated(groupings, held, m)
}

/// Complete marks cover every assignment whose subject lies on a chain that
/// starts at `subject`.
proof fn lemma_closed_covers_chain(
    groupings: Seq<GroupingView>,
    subject: Seq<char>,
    held: Seq<bool>,
    chain: Seq<Seq<char>>,
    i: int,
    k: int,
)
    requires
        closed(groupings, subject, held),
        is_membership_chain(groupings, chain),
        chain[0] == subject,
        0 <= i < chain.len(),
        0 <= k < groupings.len(),
        groupings[k].subject == chain[i],
    ensures
        held[k],
    decreases i,
{
    if i > 0 {
        assert(belongs_to_next(groupings, chain, i - 1));
        let link = GroupingView { subject: chain[i - 1], role: chain[i - 1 + 1] };
        let m = choose|m: int| 0 <= m < groupings.len() && groupings[m] == link;
        lemma_closed_covers_chain(groupings, subject, held, chain, i - 1, m);
        assert(held[m]);
        assert(propagated(groupings, held, m));
    }
}

/// Complete marks that mark nothing wrongly mark exactly the memberships
/// of `subject`.
proof fn lemma_closed_marks_memberships(
    groupings: Seq<GroupingView>,
    subject: Seq<char>,
    held: Seq<bool>,
)
    requires
        closed(groupings, subject, held),
        sound(groupings, subject, held),
    ensures
        marks_memberships(groupings, subject, held),
{
    assert forall|k: int|
        0 <= k < groupings.len() && subject_matches(
            groupings,
            subject,
            groupings[k].subject,
        ) implies #[trigger] held[k] by {
        if groupings[k].subject != subject {
            let chain = choose|chain: Seq<Seq<char>>|
                #[trigger] is_membership_chain(groupings, chain) && chain.len() >= 2
                    && chain.first() == subject && chain.last() == groupings[k].subject;
            lemma_closed_covers_chain(groupings, subject, held, chain, chain.len() - 1, k);
        }
    }
}

/// Taking the last assignment off the work list into the hand leaves the
/// other marked assignments as settled as they were.
proof fn lemma_take_in_hand(groupings: Seq<GroupingView>, held: Seq<bool>, work: Seq<usize>)
    requires
        groupings.len() <= usize::MAX,
        work.len() > 0,
        settled(groupings, held, work, -1),
    ensures
        settled(groupings, held, work.drop_last(), work.last() as int),
{
    let rest = work.drop_last();
    assert forall|p: int|
        0 <= p < groupings.len() && #[trigger] held[p] && !rest.contains(p as usize) && p
            != work.last() as int implies propagated(groupings, held, p) by {
        if work.contains(p as usize) {
            let w = choose|w: int| 0 <= w < work.len() && work[w] == p as usize;
            assert(rest[w] == p as usize);
        }
    }
}

/// Marking assignment `j` and putting it on the work list keeps the marks
/// sound, provided `j` follows from a marked assignment `m`, and leaves the
/// other marked assignments as settled as they were.
proof fn lemma_mark_and_queue(
    groupings: Seq<GroupingView>,
    subject: Seq<char>,
    held: Seq<bool>,
    work: Seq<usize>,
    m: int,
    j: usize,
)
    requires
        groupings.len() <= usize::MAX,
        sound(groupings, subject, held),
        pending(work, held),
        settled(groupings, held, work, m),
        0 <= m < groupings.len(),
        held[m],
        j < groupings.len(),
        !held[j as int],
        groupings[j as int].subject == groupings[m].role,
    ensures
        sound(groupings, subject, held.update(j as int, true)),
        pending(work.push(j), held.update(j as int, true)),
        settled(groupings, held.update(j as int, true), work.push(j), m),
        unmarked(held.update(j as int, true)) + 1 == unmarked(held),
{
    let marked = held.update(j as int, true);
    let queued = work.push(j);
    lemma_mark_one(held, j as int);
    assert(groupings.contains(groupings[m]));
    lemma_membership_extends(groupings, subject, groupings[m].subject, groupings[m].role);
    assert(queued[queued.len() - 1] == j);
    assert forall|p: int|
        0 <= p < groupings.len() && #[trigger] marked[p] && !queued.contains(p as usize) && p
            != m implies propagated(groupings, marked, p) by {
        assert(p != j);
        assert(held[p]);
        if work.contains(p as usize) {
            let w = choose|w: int| 0 <= w < work.len() && work[w] == p as usize;
            assert(queued[w] == p as usize);
        }
        assert(propagated(groupings, held, p));
        assert forall|i: int|
            0 <= i < groupings.len() && groupings[i].subject
                == groupings[p].role implies #[trigger] marked[i] by {
            if i != j {
                assert(held[i]);
            }
        }
    }
    assert forall|w: int| 0 <= w < queued.len() implies (#[trigger] queued[w]) < marked.len()
        && marked[queued[w] as int] by {
        if w < work.len() {
            assert(queued[w] == work[w]);
        }
    }
}

/// Marks the role assignments that apply to `subject`: those whose subject
/// is `subject` itself or a role that `subject` holds, however long the
/// chain of roles between them.
///
/// The assignments of `subject` itself are marked first. Then each marked
/// assignment is taken in hand once, and the assignments of its role are
/// marked in turn, until none is left to take.
pub fn memberships(links: &Vec<Link>, subject: &Vec<char>) -> (held: Vec<bool>)
    ensures
        marks_memberships(link_views(links@), subject@, held@),
{
    let n = links.len();
    let ghost groupings = link_views(links@);
    let mut held: Vec<bool> = Vec::new();
    let mut work: Vec<usize> = Vec::new();
    let mut k: usize = 0;
    while k < n
        invariant
            k <= n,
            n == links.len(),
            groupings == link_views(links@),
            held.len() == k,
            forall|j: int|
                0 <= j < k ==> (#[trigger] held@[j] <==> groupings[j].subject == subject@),
            pending(work@, held@),
            forall|j: int| 0 <= j < k && #[trigger] held@[j] ==> work@.contains(j as usize),
        decreases n - k,
    {
        let direct = chars_eq(&links[k].subject, subject);
        let ghost work_before = work@;
        held.push(direct);
        if direct {
            work.push(k);
        }
        assert forall|j: int| 0 <= j < k + 1 && #[trigger] held@[j] implies work@.contains(
            j as usize,
        ) by {
            if j < k {
                let w = choose|w: int| 0 <= w < work_before.len() && work_before[w] == j as usize;
                assert(work@[w] == j as usize);
            } else {
                assert(work@[work.len() - 1] == j as usize);
            }
        }
        k += 1;
    }
    while work.len() > 0
        invariant
            n == links.len(),
            groupings == link_views(links@),
            sound(groupings, subject@, held@),
            seeded(groupings, subject@, held@),
            pending(work@, held@),
            settled(groupings, held@, work@, -1),
        decreases 2 * unmarked(held@) + work.len(),
    {
        let ghost budget = 2 * unmarked(held@) + work.len();
        proof {
            lemma_take_in_hand(groupings, held@, work@);
        }
        let m = work.pop().unwrap();
        let mut j: usize = 0;
        while j < n
            invariant
                j <= n,
                m < n,
                n == links.len(),
                groupings == link_views(links@),
                held@[m as int],
                sound(groupings, subject@, held@),
                seeded(groupings, subject@, held@),
                pending(work@, held@),
                settled(groupings, held@, work@, m as int),
                forall|i: int|
                    0 <= i < j && groupings[i].subject == groupings[m as int].role
                        ==> #[trigger] held@[i],
                2 * unmarked(held@) + work.len() < budget,
            decreases n - j,
        {
            if !held[j] && chars_eq(&links[j].subject, &links[m].role) {
                proof {
                    lemma_mark_and_queue(groupings, subject@, held@, work@, m as int, j);
                }
                held.set(j, true);
                work.push(j);
            }
            j += 1;
        }
        assert(propagated(groupings, held@, m as int));
    }
    proof {
        assert forall|m: int| 0 <= m < n && #[trigger] held@[m] implies propagated(
            groupings,
            held@,
            m,
        ) by {
            assert(!work@.contains(m as usize));
        }
        lemma_closed_marks_memberships(groupings, subject@, held@);
    }
    held
}

/// Decides whether `subject` holds `role`, given the marks that
/// [`memberships`] made for `subject`.
pub(crate) fn holds_role(
    links: &Vec<Link>,
    held: &Vec<bool>,
    role: &Vec<char>,
    Ghost(subject): Ghost<Seq<char>>,
) -> (holds: bool)
    requires
        marks_memberships(link_views(links@), subject, held@),
    ensures
        holds == has_role(link_views(links@), subject, role@),
{
    let ghost groupings = link_views(links@);
    let mut k: usize = 0;
    while k < links.len()
        invariant
            k <= links.len(),
            groupings == link_views(links@),
            marks_memberships(groupings, subject, held@),
            forall|i: int|
                0 <= i < k ==> !(subject_matches(
                    groupings,
                    subject,
                    (#[trigger] groupings[i]).subject,
                ) && groupings[i].role == role@),
        decreases links.len() - k,
    {
        if held[k] && chars_eq(&links[k].role, role) {
            proof {
                assert(subject_matches(groupings, subject, groupings[k as int].subject));
                lemma_role_by_last_assignment(groupings, subject, role@);
            }
            return true;
        }
        assert(held@[k as int] <==> subject_matches(
            groupings,
            subject,
            groupings[k as int].subject,
        ));
        k += 1;
    }
    proof {
        lemma_role_by_last_assignment(groupings, subject, role@);
    }
    false
}

} // verus!
