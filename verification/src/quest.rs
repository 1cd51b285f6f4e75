//! The registry of background tasks ("quests") shown to the user.

use vstd::prelude::*;
use crate::external::{
    is_clock_reading, is_generated_uuid, is_uuid_v4_text, lemma_clock_reading, lemma_generated_uuid,
    lemma_readings_shape,
    local_now_timestamp, new_uuid_v4_text,
};

verus! {

/// The state a task is in.
#[derive(PartialEq, Eq, Structural, Clone, Copy, Debug)]
pub enum QuestStatus {
    Pending,
    Running,
    Completed,
    Canceled,
    Failed,
}

/// A task: its identifier, its display name, its status, its progress in
/// percent and its creation time in seconds since the Unix epoch.
#[derive(Debug)]
pub struct Quest {
    pub id: String,
    pub name: String,
    pub status: QuestStatus,
    pub progress: u8,
    pub created_at: i64,
}

impl Clone for Quest {
    fn clone(&self) -> (r: Self)
        ensures
            r == *self,
    {
        Quest {
            id: self.id.clone(),
            name: self.name.clone(),
            status: self.status,
            progress: self.progress,
            created_at: self.created_at,
        }
    }
}

/// `q` with its status set to `Canceled`, everything else kept.
pub open spec fn canceled(q: Quest) -> Quest {
    Quest {
        id: q.id,
        name: q.name,
        status: QuestStatus::Canceled,
        progress: q.progress,
        created_at: q.created_at,
    }
}

/// Whether some task of `s` has the identifier `id`.
pub open spec fn has_id(s: Seq<Quest>, id: Seq<char>) -> bool {
    exists|i: int| 0 <= i < s.len() && (#[trigger] s[i]).id@ == id
}

/// Whether `k` is the position of the first task of `s` with identifier `id`.
pub open spec fn is_first_with_id(s: Seq<Quest>, id: Seq<char>, k: int) -> bool {
    &&& 0 <= k < s.len()
    &&& s[k].id@ == id
    &&& forall|j: int| 0 <= j < k ==> (#[trigger] s[j]).id@ != id
}

/// The position of the first task of `s` with identifier `id`.
pub open spec fn first_with_id(s: Seq<Quest>, id: Seq<char>) -> int {
    choose|k: int| is_first_with_id(s, id, k)
}

/// A change to the registry: adding a task, or cancelling by identifier.
pub enum QuestOp {
    Add(Quest),
    Cancel(Seq<char>),
}

/// The tasks after `op` is applied to the tasks `s`.
pub open spec fn after_op(s: Seq<Quest>, op: QuestOp) -> Seq<Quest> {
    match op {
        QuestOp::Add(q) => s.push(q),
        QuestOp::Cancel(id) => if has_id(s, id) {
            s.remove(first_with_id(s, id))
        } else {
            s
        },
    }
}

/// The tasks after the changes `ops` are applied in order to `s`.
pub open spec fn after_ops(s: Seq<Quest>, ops: Seq<QuestOp>) -> Seq<Quest>
    decreases ops.len(),
{
    if ops.len() == 0 {
        s
    } else {
        after_ops(after_op(s, ops[0]), ops.skip(1))
    }
}

proof fn lemma_first_with_id(s: Seq<Quest>, id: Seq<char>)
    requires
        has_id(s, id),
    ensures
        is_first_with_id(s, id, first_with_id(s, id)),
    decreases s.len(),
{
    let d = s.drop_last();
    if has_id(d, id) {
        lemma_first_with_id(d, id);
        let k = first_with_id(d, id);
        assert forall|j: int| 0 <= j < k implies (#[trigger] s[j]).id@ != id by {
            assert(s[j] == d[j]);
        }
        assert(is_first_with_id(s, id, k));
    } else {
        let k = s.len() - 1;
        assert forall|j: int| 0 <= j < k implies (#[trigger] s[j]).id@ != id by {
            assert(s[j] == d[j]);
        }
        let w = choose|i: int| 0 <= i < s.len() && (#[trigger] s[i]).id@ == id;
        if w < k {
            assert(d[w] == s[w]);
        }
        assert(is_first_with_id(s, id, k));
    }
}

proof fn lemma_first_unique(s: Seq<Quest>, id: Seq<char>, k: int, l: int)
    requires
        is_first_with_id(s, id, k),
        is_first_with_id(s, id, l),
    ensures
        k == l,
{
    if k < l {
        assert(s[k].id@ != id);
    } else if l < k {
        assert(s[l].id@ != id);
    }
}

impl Quest {
    /// A new task that has not started: status `Pending`, progress 0.
    pub fn pending(id: String, name: String, created_at: i64) -> (q: Quest)
        ensures
            q.id == id,
            q.name == name,
            q.status == QuestStatus::Pending,
            q.progress == 0,
            q.created_at == created_at,
    {
        Quest { id, name, status: QuestStatus::Pending, progress: 0, created_at }
    }
}

/// The tasks in the order they were added.
pub struct QuestManager {
    quests: Vec<Quest>,
}

impl View for QuestManager {
    type V = Seq<Quest>;

    closed spec fn view(&self) -> Seq<Quest> {
        self.quests@
    }
}

impl QuestManager {
    /// A registry with no tasks.
    pub fn new() -> (m: QuestManager)
        ensures
            m@ == Seq::<Quest>::empty(),
    {
        QuestManager { quests: Vec::new() }
    }

    /// Appends `quest` after the tasks already held.
    pub fn add_quest(&mut self, quest: Quest)
        ensures
            final(self)@ == old(self)@.push(quest),
    {
        self.quests.push(quest);
    }

    /// A copy of all tasks, in order.
    pub fn get_quests(&self) -> (r: Vec<Quest>)
        ensures
            r@ == self@,
    {
        let mut r: Vec<Quest> = Vec::new();
        let mut i: usize = 0;
        while i < self.quests.len()
            invariant
                i <= self.quests@.len(),
                r@ == self.quests@.subrange(0, i as int),
            decreases self.quests@.len() - i,
        {
            r.push(self.quests[i].clone());
            i = i + 1;
            assert(r@ =~= self.quests@.subrange(0, i as int));
        }
        assert(r@ =~= self.quests@);
        r
    }

    /// Removes the first task whose identifier is `id` and returns it with
    /// status `Canceled`; returns `None`, and keeps every task, when no task
    /// has that identifier.
    pub fn cancel_quest(&mut self, id: &str) -> (r: Option<Quest>)
        ensures
            r is None <==> !has_id(old(self)@, id@),
            r is None ==> final(self)@ == old(self)@,
            r matches Some(q) ==> exists|k: int|
                #![trigger old(self)@[k]]
                is_first_with_id(old(self)@, id@, k) && q == canceled(old(self)@[k])
                    && final(self)@ == old(self)@.remove(k),
            final(self)@ == after_op(old(self)@, QuestOp::Cancel(id@)),
            r matches Some(q) ==> exists|k: int|
                #![trigger old(self)@[k]]
                is_first_with_id(old(self)@, id@, k) && q.id == old(self)@[k].id && q.name == old(
                    self,
                )@[k].name && q.status == QuestStatus::Canceled && q.progress == old(self)@[k].progress
                    && q.created_at == old(self)@[k].created_at,
    {
        let wanted = String::from_str(id);
        let n = self.quests.len();
        let mut i: usize = 0;
        while i < n
            invariant
                n == self.quests@.len(),
                self.quests@ == old(self).quests@,
                wanted@ == id@,
                i <= n,
                forall|j: int| 0 <= j < i ==> (#[trigger] self.quests@[j]).id@ != id@,
            decreases n - i,
        {
            if self.quests[i].id == wanted {
                let mut quest = self.quests.remove(i);
                quest.status = QuestStatus::Canceled;
                assert(is_first_with_id(old(self)@, id@, i as int));
                proof {
                    lemma_first_with_id(old(self)@, id@);
                    lemma_first_unique(old(self)@, id@, i as int, first_with_id(old(self)@, id@));
                }
                return Some(quest);
            }
            i = i + 1;
        }
        None
    }
}

/// Creates a new pending task named `name` with a fresh random identifier
/// and the current time, registers it in `manager`, and returns it.
pub fn create_quest(name: String, manager: &mut QuestManager) -> (r: Result<Quest, String>)
    ensures
        r matches Ok(q) && q.name == name && q.status == QuestStatus::Pending && q.progress == 0
            && is_uuid_v4_text(q.id@) && q.created_at >= 0 && final(manager)@ == old(
            manager,
        )@.push(q),
        r matches Ok(q) && is_clock_reading(q.created_at) && is_generated_uuid(q.id),
{
    let read_id = new_uuid_v4_text;
    let read_clock = local_now_timestamp;
    let id = read_id();
    let created_at = read_clock();
    proof {
        lemma_generated_uuid(id);
        lemma_clock_reading(created_at);
    }
    create_quest_with(name, id, created_at, manager)
}

/// Registers in `manager` a new pending task with identifier `id`, name
/// `name` and creation time `created_at`, and returns it.
pub fn create_quest_with(name: String, id: String, created_at: i64, manager: &mut QuestManager) -> (r:
    Result<Quest, String>)
    ensures
        r matches Ok(q) && q == (Quest {
            id,
            name,
            status: QuestStatus::Pending,
            progress: 0,
            created_at,
        }) && final(manager)@ == after_op(old(manager)@, QuestOp::Add(q)),
{
    let quest = Quest::pending(id, name, created_at);
    manager.add_quest(quest.clone());
    Ok(quest)
}

/// All tasks of `manager`, in order.
pub fn list_quests(manager: &QuestManager) -> (r: Result<Vec<Quest>, String>)
    ensures
        r matches Ok(v) && v@ == manager@,
{
    Ok(manager.get_quests())
}

/// Cancels the first task whose identifier is `id`, as
/// `QuestManager::cancel_quest` does; never fails.
pub fn cancel_quest(id: String, manager: &mut QuestManager) -> (r: Result<Option<Quest>, String>)
    ensures
        r matches Ok(o) && (o is None <==> !has_id(old(manager)@, id@)) && (o is None
            ==> final(manager)@ == old(manager)@) && (o matches Some(q) ==> exists|k: int|
            #![trigger old(manager)@[k]]
            is_first_with_id(old(manager)@, id@, k) && q == canceled(old(manager)@[k])
                && final(manager)@ == old(manager)@.remove(k)),
        r matches Ok(Some(q)) ==> exists|k: int|
            #![trigger old(manager)@[k]]
            is_first_with_id(old(manager)@, id@, k) && q.id == old(manager)@[k].id && q.name == old(
                manager,
            )@[k].name && q.status == QuestStatus::Canceled && q.progress == old(manager)@[k].progress
                && q.created_at == old(manager)@[k].created_at,
{
    Ok(manager.cancel_quest(id.as_str()))
}

/// Cancelling changes only the status of a task: the canceled task keeps
/// its identifier, name, progress and creation time, and has status
/// `Canceled`.
pub proof fn law_cancel_changes_only_status(q: Quest)
    ensures
        canceled(q).id == q.id,
        canceled(q).name == q.name,
        canceled(q).progress == q.progress,
        canceled(q).created_at == q.created_at,
        canceled(q).status == QuestStatus::Canceled,
{
}

/// Every identifier and time a created task gets is one the generators
/// give: a clock reading is never negative, and a generated identifier has
/// the shape of a random UUID.
pub proof fn law_created_quest_readings(t: i64, id: String)
    ensures
        is_clock_reading(t) ==> t >= 0,
        is_generated_uuid(id) ==> is_uuid_v4_text(id@),
{
    lemma_readings_shape(t, id);
}

/// Adding a task whose identifier no other task has and then cancelling
/// that identifier gives the task back, canceled, and leaves the registry
/// as it was before the add: `cancel_quest` finds the added task, and only
/// it, and removes it.
pub proof fn law_cancel_undoes_add(before: Seq<Quest>, q: Quest)
    requires
        !has_id(before, q.id@),
    ensures
        has_id(before.push(q), q.id@),
        forall|k: int|
            is_first_with_id(before.push(q), q.id@, k) ==> k == before.len() && canceled(
                #[trigger] before.push(q)[k],
            ) == canceled(q) && before.push(q).remove(k) == before,
{
    let after = before.push(q);
    assert(after[before.len() as int] == q);
    assert forall|k: int| is_first_with_id(after, q.id@, k) implies k == before.len() && canceled(
        #[trigger] after[k],
    ) == canceled(q) && after.remove(k) == before by {
        if k < before.len() {
            assert(before[k] == after[k]);
        }
        assert(after.remove(k) =~= before);
    }
}

/// Cancelling removes exactly one task, the first with the identifier, and
/// keeps the others in their order: the tasks before it stay where they
/// were and the tasks after it move up by one.
pub proof fn law_cancel_keeps_others(before: Seq<Quest>, id: Seq<char>, k: int)
    requires
        is_first_with_id(before, id, k),
    ensures
        before.remove(k).len() == before.len() - 1,
        forall|j: int| 0 <= j < k ==> #[trigger] before.remove(k)[j] == before[j],
        forall|j: int| k <= j < before.len() - 1 ==> #[trigger] before.remove(k)[j] == before[j + 1],
{
}

proof fn lemma_op_keeps_listed(s: Seq<Quest>, q: Quest, op: QuestOp)
    requires
        s.contains(q),
        op != QuestOp::Cancel(q.id@),
    ensures
        after_op(s, op).contains(q),
{
    let j = choose|j: int| 0 <= j < s.len() && s[j] == q;
    match op {
        QuestOp::Add(x) => {
            assert(s.push(x)[j] == q);
        },
        QuestOp::Cancel(id) => {
            if has_id(s, id) {
                lemma_first_with_id(s, id);
                let k = first_with_id(s, id);
                assert(id != q.id@);
                assert(k != j);
                if j < k {
                    assert(s.remove(k)[j] == q);
                } else {
                    assert(s.remove(k)[j - 1] == q);
                }
            }
        },
    }
}

/// A task stays in the registry, and so in every listing of it, through any
/// changes that do not cancel its identifier: adding tasks and cancelling
/// other identifiers never remove it.
pub proof fn law_listed_until_canceled(s: Seq<Quest>, q: Quest, ops: Seq<QuestOp>)
    requires
        s.contains(q),
        forall|i: int| 0 <= i < ops.len() ==> ops[i] != QuestOp::Cancel(q.id@),
    ensures
        after_ops(s, ops).contains(q),
    decreases ops.len(),
{
    if ops.len() > 0 {
        lemma_op_keeps_listed(s, q, ops[0]);
        assert forall|i: int| 0 <= i < ops.skip(1).len() implies ops.skip(1)[i] != QuestOp::Cancel(
            q.id@,
        ) by {
            assert(ops.skip(1)[i] == ops[i + 1]);
        }
        law_listed_until_canceled(after_op(s, ops[0]), q, ops.skip(1));
    }
}

/// A created task is listed: right after `create_quest` (or
/// `create_quest_with`) the registry holds it, so by
/// `law_listed_until_canceled` every later listing holds it until its
/// identifier is cancelled.
pub proof fn law_created_quest_listed(before: Seq<Quest>, q: Quest)
    ensures
        after_op(before, QuestOp::Add(q)).contains(q),
{
    assert(before.push(q)[before.len() as int] == q);
}

/// Cancelling an identifier that some task has removes the earliest task
/// with that identifier, and only it: the task at the removed position has
/// the identifier, and no task before it has.
pub proof fn law_cancel_takes_earliest(s: Seq<Quest>, id: Seq<char>)
    requires
        exists|i: int| 0 <= i < s.len() && (#[trigger] s[i]).id@ == id,
    ensures
        exists|k: int|
            0 <= k < s.len() && (#[trigger] s[k]).id@ == id && (forall|j: int|
                0 <= j < k ==> (#[trigger] s[j]).id@ != id) && after_op(s, QuestOp::Cancel(id))
                == s.remove(k),
{
    lemma_first_with_id(s, id);
    let k = first_with_id(s, id);
    assert(s[k].id@ == id);
}

} // verus!
