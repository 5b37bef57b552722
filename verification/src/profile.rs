//! The profile: the durable aggregate of a user's quest collection and the
//! running totals of experience and completion events.

use crate::date::{today_date, valid_ymd, Date};
use crate::quest::{is_completed_v, is_open, views_of, Quest, QuestV};
use vstd::prelude::*;

verus! {

/// The aggregate root: the quest collection (insertion order preserved, no
/// duplicate names enforced at add time) and the running totals.
pub struct Profile {
    pub exp: u32,
    pub completed: u32,
    pub quests: Vec<Quest>,
}

/// The mathematical model of a profile.
#[verifier::ext_equal]
pub struct ProfileV {
    pub exp: int,
    pub completed: int,
    pub quests: Seq<QuestV>,
}

impl View for Profile {
    type V = ProfileV;

    open spec fn view(&self) -> ProfileV {
        ProfileV {
            exp: self.exp as int,
            completed: self.completed as int,
            quests: views_of(self.quests@),
        }
    }
}

/// Whether some quest in `qs` carries exactly the name `name`.
pub open spec fn has_quest(qs: Seq<QuestV>, name: Seq<char>) -> bool {
    exists|i: int| 0 <= i < qs.len() && qs[i].name == name
}

/// Index of the first quest named `name`, or `-1` when there is none.
pub open spec fn find_idx(qs: Seq<QuestV>, name: Seq<char>) -> int
    decreases qs.len(),
{
    if qs.len() == 0 {
        -1
    } else if qs[0].name == name {
        0
    } else {
        let rest = find_idx(qs.drop_first(), name);
        if rest < 0 {
            -1
        } else {
            rest + 1
        }
    }
}

/// `find_idx` returns a valid index exactly when the name is present, and
/// that index is the first match.
pub proof fn lemma_find_idx(qs: Seq<QuestV>, name: Seq<char>)
    ensures
        has_quest(qs, name) <==> 0 <= find_idx(qs, name) < qs.len(),
        !has_quest(qs, name) ==> find_idx(qs, name) == -1,
        0 <= find_idx(qs, name) ==> qs[find_idx(qs, name)].name == name,
        forall|j: int| 0 <= j < find_idx(qs, name) ==> qs[j].name != name,
    decreases qs.len(),
{
    if qs.len() == 0 {
    } else if qs[0].name == name {
    } else {
        let rest = qs.drop_first();
        lemma_find_idx(rest, name);
        assert(forall|i: int| 0 <= i < rest.len() ==> rest[i] == qs[i + 1]);
        if has_quest(qs, name) {
            let w = choose|i: int| 0 <= i < qs.len() && qs[i].name == name;
            assert(rest[w - 1].name == name);
            assert(has_quest(rest, name));
        }
        if has_quest(rest, name) {
            let w = choose|i: int| 0 <= i < rest.len() && rest[i].name == name;
            assert(qs[w + 1].name == name);
            assert(has_quest(qs, name));
        }
        assert forall|j: int| 0 <= j < find_idx(qs, name) implies qs[j].name != name by {
            if j > 0 {
                assert(qs[j] == rest[j - 1]);
            }
        }
    }
}

/// The predicate "not named `name`": what `remove_quest` keeps.
pub open spec fn not_named(name: Seq<char>) -> spec_fn(QuestV) -> bool {
    |q: QuestV| q.name != name
}

/// Whether `add_quest` accepts the quest: no existing quest shares its name.
pub open spec fn add_ok(p: ProfileV, q: QuestV) -> bool {
    !has_quest(p.quests, q.name)
}

/// The profile after `add_quest`: the quest is appended on success, nothing
/// changes on a duplicate name.
pub open spec fn add_result(p: ProfileV, q: QuestV) -> ProfileV {
    if add_ok(p, q) {
        ProfileV { quests: p.quests.push(q), ..p }
    } else {
        p
    }
}

/// Whether `remove_quest` removes anything: some quest carries the name.
pub open spec fn remove_ok(p: ProfileV, name: Seq<char>) -> bool {
    has_quest(p.quests, name)
}

/// The profile after `remove_quest`: every quest with the name is dropped,
/// the totals stay.
pub open spec fn remove_result(p: ProfileV, name: Seq<char>) -> ProfileV {
    ProfileV { quests: p.quests.filter(not_named(name)), ..p }
}

/// Whether `complete_quest` succeeds on `today`: the quest exists and the
/// Completion Rule does not already hold for it.
pub open spec fn complete_ok(p: ProfileV, name: Seq<char>, today: (int, int, int)) -> bool {
    &&& has_quest(p.quests, name)
    &&& !is_completed_v(p.quests[find_idx(p.quests, name)], today)
}

/// The profile after `complete_quest` on `today`: on success the quest's
/// completion date becomes `today`, the experience total grows by the
/// quest's reward and the completion count by one; otherwise nothing
/// changes.
pub open spec fn complete_result(p: ProfileV, name: Seq<char>, today: (int, int, int)) -> ProfileV {
    if complete_ok(p, name, today) {
        let i = find_idx(p.quests, name);
        let q = p.quests[i];
        ProfileV {
            exp: p.exp + q.exp,
            completed: p.completed + 1,
            quests: p.quests.update(i, QuestV { last: Some(today), ..q }),
        }
    } else {
        p
    }
}

/// Whether the running totals can absorb one completion of the named quest
/// without exceeding the machine range of the counters.
pub open spec fn totals_fit(p: ProfileV, name: Seq<char>) -> bool {
    &&& p.completed + 1 <= u32::MAX
    &&& has_quest(p.quests, name) ==> p.exp + p.quests[find_idx(p.quests, name)].exp <= u32::MAX
}

/// Updating the quest at the first index carrying `name` with a quest of
/// the same name moves neither that index nor the presence of the name.
proof fn lemma_find_idx_update_same_name(qs: Seq<QuestV>, name: Seq<char>, q2: QuestV)
    requires
        has_quest(qs, name),
        q2.name == qs[find_idx(qs, name)].name,
    ensures
        has_quest(qs.update(find_idx(qs, name), q2), name),
        find_idx(qs.update(find_idx(qs, name), q2), name) == find_idx(qs, name),
{
    let i = find_idx(qs, name);
    let qs2 = qs.update(i, q2);
    lemma_find_idx(qs, name);
    lemma_find_idx(qs2, name);
    assert(qs2[i].name == name);
    assert(has_quest(qs2, name));
    let i2 = find_idx(qs2, name);
    assert(forall|j: int| 0 <= j < i ==> qs2[j] == qs[j]);
    if i2 < i {
        assert(qs[i2].name == name);
    }
    if i2 > i {
        assert(qs2[i].name != name);
    }
}

/// No two quests share a name.
pub open spec fn names_unique(qs: Seq<QuestV>) -> bool {
    forall|i: int, j: int|
        #![trigger qs[i].name, qs[j].name]
        0 <= i < j < qs.len() ==> qs[i].name != qs[j].name
}

/// A sequence with pairwise-distinct names keeps them under `filter`, and
/// every filtered element appears in the original.
proof fn lemma_filter_unique_names(s: Seq<QuestV>, p: spec_fn(QuestV) -> bool)
    requires
        names_unique(s),
    ensures
        names_unique(s.filter(p)),
        forall|k: int| 0 <= k < s.filter(p).len() ==> s.contains(#[trigger] s.filter(p)[k]),
    decreases s.len(),
{
    reveal(Seq::filter);
    if s.len() > 0 {
        let t = s.drop_last();
        assert(names_unique(t));
        lemma_filter_unique_names(t, p);
        let ft = t.filter(p);
        let out = s.filter(p);
        assert forall|k: int| 0 <= k < out.len() implies s.contains(out[k]) by {
            if k < ft.len() {
                assert(t.contains(ft[k]));
                let w = choose|w: int| 0 <= w < t.len() && t[w] == ft[k];
                assert(s[w] == out[k]);
            } else {
                assert(out[k] == s[s.len() - 1]);
            }
        }
        if p(s.last()) {
            assert forall|i: int, j: int| 0 <= i < j < out.len() implies out[i].name
                != out[j].name by {
                if j == out.len() - 1 {
                    assert(t.contains(ft[i]));
                    let w = choose|w: int| 0 <= w < t.len() && t[w] == ft[i];
                    assert(s[w].name != s[s.len() - 1].name);
                }
            }
        }
    }
}

/// Law: every operation preserves the no-duplicate-names invariant that
/// `add_quest` enforces.
pub proof fn lemma_ops_preserve_unique_names(
    p: ProfileV,
    q: QuestV,
    name: Seq<char>,
    t: (int, int, int),
)
    requires
        names_unique(p.quests),
    ensures
        names_unique(add_result(p, q).quests),
        names_unique(remove_result(p, name).quests),
        names_unique(complete_result(p, name, t).quests),
{
    if add_ok(p, q) {
        let out = p.quests.push(q);
        assert forall|i: int, j: int| 0 <= i < j < out.len() implies out[i].name
            != out[j].name by {
            if j == out.len() - 1 {
                assert(!(0 <= i < p.quests.len() && p.quests[i].name == q.name));
            }
        }
    }
    lemma_filter_unique_names(p.quests, not_named(name));
    if complete_ok(p, name, t) {
        let i = find_idx(p.quests, name);
        lemma_find_idx(p.quests, name);
        let out = complete_result(p, name, t).quests;
        assert(forall|k: int| 0 <= k < out.len() ==> out[k].name == #[trigger] p.quests[k].name);
    }
}

/// Law: once a one-shot quest has been completed, completing it again
/// fails and leaves the profile unchanged, whatever date has come.
pub proof fn lemma_oneshot_permanent(
    p: ProfileV,
    name: Seq<char>,
    t1: (int, int, int),
    t2: (int, int, int),
)
    requires
        has_quest(p.quests, name),
        !p.quests[find_idx(p.quests, name)].daily,
        complete_ok(p, name, t1),
    ensures
        !complete_ok(complete_result(p, name, t1), name, t2),
        complete_result(complete_result(p, name, t1), name, t2) == complete_result(p, name, t1),
{
    let i = find_idx(p.quests, name);
    let q2 = QuestV { last: Some(t1), ..p.quests[i] };
    lemma_find_idx(p.quests, name);
    lemma_find_idx_update_same_name(p.quests, name, q2);
}

/// Law: a daily quest can be completed at most once per day; on the same
/// day a second completion is refused and changes nothing, while on any
/// other day it succeeds and grows both totals again.
pub proof fn lemma_daily_resets(
    p: ProfileV,
    name: Seq<char>,
    t1: (int, int, int),
    t2: (int, int, int),
)
    requires
        has_quest(p.quests, name),
        p.quests[find_idx(p.quests, name)].daily,
        complete_ok(p, name, t1),
    ensures
        !complete_ok(complete_result(p, name, t1), name, t1),
        complete_result(complete_result(p, name, t1), name, t1) == complete_result(p, name, t1),
        t2 != t1 ==> complete_ok(complete_result(p, name, t1), name, t2),
        t2 != t1 ==> complete_result(complete_result(p, name, t1), name, t2).exp
            == complete_result(p, name, t1).exp + p.quests[find_idx(p.quests, name)].exp,
        t2 != t1 ==> complete_result(complete_result(p, name, t1), name, t2).completed
            == complete_result(p, name, t1).completed + 1,
{
    let i = find_idx(p.quests, name);
    let q2 = QuestV { last: Some(t1), ..p.quests[i] };
    lemma_find_idx(p.quests, name);
    lemma_find_idx_update_same_name(p.quests, name, q2);
    let p1 = complete_result(p, name, t1);
    assert(p1.quests[i] == q2);
}

/// Law: adding a quest whose name is already present changes nothing:
/// neither the quest collection nor the totals.
pub proof fn lemma_add_duplicate(p: ProfileV, q: QuestV)
    requires
        has_quest(p.quests, q.name),
    ensures
        add_result(p, q) == p,
        add_result(p, q).quests.len() == p.quests.len(),
{
}

/// Law: the open-quest list never contains a quest for which the
/// Completion Rule holds on the date the list was taken.
pub proof fn lemma_open_not_completed(qs: Seq<QuestV>, t: (int, int, int), k: int)
    requires
        0 <= k < qs.filter(is_open(t)).len(),
    ensures
        !is_completed_v(qs.filter(is_open(t))[k], t),
{
    qs.lemma_filter_pred(is_open(t), k);
}

impl Profile {
    /// The profile's invariant: quest names are pairwise distinct.
    /// [`Profile::new`] establishes it, and by
    /// [`lemma_ops_preserve_unique_names`] every operation preserves it.
    pub open spec fn wf(&self) -> bool {
        names_unique(self@.quests)
    }

    /// A fresh profile: no quests, zero totals.
    pub fn new() -> (p: Profile)
        ensures
            p@.exp == 0,
            p@.completed == 0,
            p@.quests.len() == 0,
            p.wf(),
    {
        Profile { exp: 0, completed: 0, quests: Vec::new() }
    }

    /// First quest with exactly the given name, if any.
    pub fn get_quest(&self, name: &str) -> (r: Option<&Quest>)
        ensures
            match r {
                Some(q) => {
                    &&& has_quest(self@.quests, name@)
                    &&& q@ == self@.quests[find_idx(self@.quests, name@)]
                },
                None => !has_quest(self@.quests, name@),
            },
    {
        let name_key: String = name.to_owned();
        let n = self.quests.len();
        let mut i: usize = 0;
        while i < n
            invariant
                i <= n,
                n == self.quests.len(),
                name_key@ == name@,
                forall|j: int| 0 <= j < i ==> self@.quests[j].name != name@,
            decreases n - i,
        {
            if self.quests[i].name == name_key {
                proof {
                    lemma_find_idx(self@.quests, name@);
                    assert(self@.quests[i as int].name == name@);
                    assert(find_idx(self@.quests, name@) == i);
                }
                return Some(&self.quests[i]);
            }
            i += 1;
        }
        proof {
            lemma_find_idx(self@.quests, name@);
        }
        None
    }

    /// Add a quest unless one with the same name already exists; reports
    /// whether the quest was added.
    pub fn add_quest(&mut self, quest: Quest) -> (r: bool)
        ensures
            r == add_ok(old(self)@, quest@),
            final(self)@ == add_result(old(self)@, quest@),
    {
        if self.get_quest(quest.name.as_str()).is_some() {
            return false;
        }
        self.quests.push(quest);
        proof {
            assert(self@.quests =~= old(self)@.quests.push(quest@));
            assert(self@ =~= add_result(old(self)@, quest@));
        }
        true
    }

    /// Remove every quest with exactly the given name (at most one when the
    /// no-duplicates invariant holds); reports whether any was removed.
    pub fn remove_quest(&mut self, name: &str) -> (r: bool)
        ensures
            r == remove_ok(old(self)@, name@),
            final(self)@ == remove_result(old(self)@, name@),
    {
        let name_key: String = name.to_owned();
        let n = self.quests.len();
        let mut kept: Vec<Quest> = Vec::new();
        let mut found = false;
        let ghost s = self@.quests;
        proof {
            reveal(Seq::filter);
            assert(s.subrange(0, 0) =~= Seq::<QuestV>::empty());
        }
        let mut i: usize = 0;
        while i < n
            invariant
                i <= n,
                n == self.quests.len(),
                self.exp == old(self).exp,
                self.completed == old(self).completed,
                s == self@.quests,
                s == old(self)@.quests,
                name_key@ == name@,
                views_of(kept@) == s.subrange(0, i as int).filter(not_named(name@)),
                found == exists|j: int| 0 <= j < i && s[j].name == name@,
            decreases n - i,
        {
            let ghost pre = views_of(kept@);
            let q = self.quests[i].clone();
            let is_match = q.name == name_key;
            if is_match {
                found = true;
            } else {
                kept.push(q);
            }
            proof {
                reveal(Seq::filter);
                assert(s.subrange(0, i as int + 1).drop_last() =~= s.subrange(0, i as int));
                assert(s.subrange(0, i as int + 1).last() == s[i as int]);
                if is_match {
                    assert(s[i as int].name == name@);
                } else {
                    assert(views_of(kept@) =~= pre.push(s[i as int]));
                    assert(forall|j: int|
                        0 <= j < i + 1 && s[j].name == name@ ==> 0 <= j < i && s[j].name == name@);
                }
            }
            i += 1;
        }
        proof {
            assert(s.subrange(0, n as int) =~= s);
        }
        self.quests = kept;
        proof {
            assert(self@ =~= remove_result(old(self)@, name@));
        }
        found
    }

    /// Copies of the quests that are open on `today`, in collection order.
    pub fn get_open_on(&self, today: &Date) -> (r: Vec<Quest>)
        ensures
            views_of(r@) == self@.quests.filter(is_open(today@)),
    {
        let n = self.quests.len();
        let mut open: Vec<Quest> = Vec::new();
        let ghost s = self@.quests;
        proof {
            reveal(Seq::filter);
            assert(s.subrange(0, 0) =~= Seq::<QuestV>::empty());
        }
        let mut i: usize = 0;
        while i < n
            invariant
                i <= n,
                n == self.quests.len(),
                s == self@.quests,
                views_of(open@) == s.subrange(0, i as int).filter(is_open(today@)),
            decreases n - i,
        {
            let ghost pre = views_of(open@);
            let keep = !self.quests[i].is_completed(today);
            if keep {
                open.push(self.quests[i].clone());
            }
            proof {
                reveal(Seq::filter);
                assert(s.subrange(0, i as int + 1).drop_last() =~= s.subrange(0, i as int));
                assert(s.subrange(0, i as int + 1).last() == s[i as int]);
                if keep {
                    assert(views_of(open@) =~= pre.push(s[i as int]));
                }
            }
            i += 1;
        }
        proof {
            assert(s.subrange(0, n as int) =~= s);
        }
        open
    }

    /// Complete the quest with the given name on the given date: record
    /// `today` as its completion date and grow the totals, unless the quest
    /// is absent or the Completion Rule already holds for it.
    pub fn complete_on(&mut self, name: &str, today: &Date) -> (r: bool)
        requires
            today.wf(),
            totals_fit(old(self)@, name@),
        ensures
            r == complete_ok(old(self)@, name@, today@),
            final(self)@ == complete_result(old(self)@, name@, today@),
    {
        let name_key: String = name.to_owned();
        let n = self.quests.len();
        let ghost s = self@.quests;
        let mut i: usize = 0;
        while i < n
            invariant
                i <= n,
                n == self.quests.len(),
                self.exp == old(self).exp,
                self.completed == old(self).completed,
                s == self@.quests,
                s == old(self)@.quests,
                name_key@ == name@,
                today.wf(),
                totals_fit(old(self)@, name@),
                forall|j: int| 0 <= j < i ==> s[j].name != name@,
            decreases n - i,
        {
            if self.quests[i].name == name_key {
                proof {
                    lemma_find_idx(s, name@);
                    assert(s[i as int].name == name@);
                    assert(find_idx(s, name@) == i);
                }
                if self.quests[i].is_completed(today) {
                    return false;
                }
                let mut q = self.quests[i].clone();
                q.date_last_completed = crate::date::format_date(today);
                let reward = q.exp;
                proof {
                    assert(q@ =~= (QuestV { last: Some(today@), ..s[i as int] }));
                }
                self.quests[i] = q;
                self.exp = self.exp + reward;
                self.completed = self.completed + 1;
                proof {
                    assert(self@.quests =~= s.update(i as int, QuestV {
                        last: Some(today@),
                        ..s[i as int]
                    }));
                    assert(self@ =~= complete_result(old(self)@, name@, today@));
                }
                return true;
            }
            i += 1;
        }
        proof {
            assert(!has_quest(s, name@));
            lemma_find_idx(s, name@);
        }
        false
    }

    /// Complete the quest with the given name against the local clock's
    /// current date. Unlike [`Profile::complete_on`] this places no demand
    /// on the caller: when growing the totals would exceed their machine
    /// range, it leaves the profile unchanged and reports failure.
    pub fn complete(&mut self, name: &str) -> (r: bool)
        ensures
            exists|t: (int, int, int)|
                {
                    &&& #[trigger] valid_ymd(t)
                    &&& r == (complete_ok(old(self)@, name@, t) && totals_fit(old(self)@, name@))
                    &&& final(self)@ == if totals_fit(old(self)@, name@) {
                        complete_result(old(self)@, name@, t)
                    } else {
                        old(self)@
                    }
                },
    {
        let today = today_date();
        let fits: bool = match self.get_quest(name) {
            None => self.completed < u32::MAX,
            Some(q) => self.completed < u32::MAX && q.exp <= u32::MAX - self.exp,
        };
        proof {
            lemma_find_idx(self@.quests, name@);
            assert(fits == totals_fit(self@, name@));
        }
        if !fits {
            proof {
                assert(valid_ymd(today@));
                assert(!(complete_ok(old(self)@, name@, today@) && totals_fit(old(self)@, name@)));
                assert(self@ == old(self)@);
            }
            return false;
        }
        let r = self.complete_on(name, &today);
        proof {
            assert(valid_ymd(today@) && r == complete_ok(old(self)@, name@, today@) && self@
                == complete_result(old(self)@, name@, today@));
        }
        r
    }

    /// Copies of the open quests against the local clock's current date.
    pub fn get_open(&self) -> (r: Vec<Quest>)
        ensures
            exists|t: (int, int, int)|
                valid_ymd(t) && views_of(r@) == #[trigger] self@.quests.filter(is_open(t)),
    {
        let today = today_date();
        let r = self.get_open_on(&today);
        proof {
            assert(valid_ymd(today@) && views_of(r@) == self@.quests.filter(is_open(today@)));
        }
        r
    }
}

} // verus!
