//! The mailbox metadata store: one entry per message, keyed by message
//! number, with a session-scoped deletion mark on each entry.
//!
//! Deletion is transactional: `mark_deleted` only flags an entry,
//! `clear_marks` lifts every flag, and only `commit` removes the flagged
//! entries for good. Counts, sizes and listings always range over the
//! unflagged ("live") entries alone.

use vstd::prelude::*;
use vstd::string::StrSliceExecFns;

use crate::proto::MessageMeta;
use crate::proto::MetaV;
use crate::proto::UidlEntry;
use crate::proto::UidlEntryV;

verus! {

// ---------------------------------------------------------------------------
// The model: sequences of entries
// ---------------------------------------------------------------------------

/// The mathematical shape of one stored message: number, size in octets,
/// persistent unique-id, and the session's deletion mark.
#[verifier::ext_equal]
pub struct EntryV {
    pub id: nat,
    pub size: nat,
    pub uid: Seq<char>,
    pub deleted: bool,
}

/// A well-formed unique-id: one to seventy printable ASCII characters.
pub open spec fn uid_wf(u: Seq<char>) -> bool {
    1 <= u.len() <= 70 && forall|i: int| 0 <= i < u.len() ==> 0x21 <= #[trigger] u[i] as int
        <= 0x7e
}

/// A well-formed entry: positive message number and well-formed unique-id.
pub open spec fn entry_wf(e: EntryV) -> bool {
    e.id >= 1 && uid_wf(e.uid)
}

/// Message numbers strictly increase through the store.
pub open spec fn sorted_ids(s: Seq<EntryV>) -> bool {
    forall|i: int, j: int| 0 <= i < j < s.len() ==> s[i].id < s[j].id
}

/// Total size of every entry, deleted or not.
pub open spec fn total_size(s: Seq<EntryV>) -> nat
    decreases s.len(),
{
    if s.len() == 0 {
        0
    } else {
        total_size(s.drop_last()) + s.last().size
    }
}

/// A well-formed store: sorted unique positive numbers, well-formed entries,
/// and a total size a machine word can hold.
pub open spec fn entries_wf(s: Seq<EntryV>) -> bool {
    &&& sorted_ids(s)
    &&& forall|i: int| 0 <= i < s.len() ==> entry_wf(#[trigger] s[i])
    &&& total_size(s) <= usize::MAX
}

/// How many entries are live, that is not marked deleted.
pub open spec fn live_count(s: Seq<EntryV>) -> nat
    decreases s.len(),
{
    if s.len() == 0 {
        0
    } else {
        live_count(s.drop_last()) + if s.last().deleted {
            0
        } else {
            1 as nat
        }
    }
}

/// Total size of the live entries.
pub open spec fn live_size(s: Seq<EntryV>) -> nat
    decreases s.len(),
{
    if s.len() == 0 {
        0
    } else {
        live_size(s.drop_last()) + if s.last().deleted {
            0
        } else {
            s.last().size
        }
    }
}

/// The live entries, in store order.
pub open spec fn live_of(s: Seq<EntryV>) -> Seq<EntryV>
    decreases s.len(),
{
    if s.len() == 0 {
        Seq::empty()
    } else {
        live_of(s.drop_last()) + if s.last().deleted {
            Seq::empty()
        } else {
            seq![s.last()]
        }
    }
}

/// The scan listing of a sequence of entries.
pub open spec fn metas_of(s: Seq<EntryV>) -> Seq<MetaV> {
    Seq::new(s.len(), |i: int| MetaV { id: s[i].id, size: s[i].size })
}

/// The unique-id listing of a sequence of entries.
pub open spec fn uidls_of(s: Seq<EntryV>) -> Seq<UidlEntryV> {
    Seq::new(s.len(), |i: int| UidlEntryV { id: s[i].id, uid: s[i].uid })
}

/// No entry carries a deletion mark.
pub open spec fn no_marks(s: Seq<EntryV>) -> bool {
    forall|i: int| 0 <= i < s.len() ==> !(#[trigger] s[i]).deleted
}

/// Index of the entry numbered `id`, or `-1` when there is none.
pub open spec fn idx_of(s: Seq<EntryV>, id: nat) -> int
    decreases s.len(),
{
    if s.len() == 0 {
        -1
    } else if s[0].id == id {
        0
    } else {
        let r = idx_of(s.skip(1), id);
        if r < 0 {
            -1
        } else {
            1 + r
        }
    }
}

/// Some entry is numbered `id`.
pub open spec fn has_id(s: Seq<EntryV>, id: nat) -> bool {
    idx_of(s, id) >= 0
}

/// Some live entry is numbered `id`.
pub open spec fn has_live(s: Seq<EntryV>, id: nat) -> bool {
    idx_of(s, id) >= 0 && !s[idx_of(s, id)].deleted
}

/// The store after marking the entry numbered `id` deleted; unchanged when
/// there is no such entry.
pub open spec fn mark_spec(s: Seq<EntryV>, id: nat) -> Seq<EntryV> {
    let p = idx_of(s, id);
    if p < 0 {
        s
    } else {
        s.update(p, EntryV { deleted: true, ..s[p] })
    }
}

/// The store with every deletion mark lifted.
pub open spec fn clear_spec(s: Seq<EntryV>) -> Seq<EntryV> {
    Seq::new(s.len(), |i: int| EntryV { deleted: false, ..s[i] })
}

/// Index at which an entry numbered `id` belongs: before the first entry
/// whose number is at least `id`.
pub open spec fn insert_pos(s: Seq<EntryV>, id: nat) -> int
    decreases s.len(),
{
    if s.len() == 0 {
        0
    } else if s[0].id >= id {
        0
    } else {
        1 + insert_pos(s.skip(1), id)
    }
}

/// The store after an upsert of `e`: the entry with the same number is
/// replaced, or `e` is inserted in number order.
pub open spec fn put_spec(s: Seq<EntryV>, e: EntryV) -> Seq<EntryV> {
    let p = insert_pos(s, e.id);
    if p < s.len() && s[p].id == e.id {
        s.update(p, e)
    } else {
        s.insert(p, e)
    }
}

// ---------------------------------------------------------------------------
// Lemmas about the model
// ---------------------------------------------------------------------------

/// `idx_of` is exactly the index found by a forward scan: `i` is it when
/// everything before `i` is numbered otherwise and `i` itself (if in range)
/// is numbered `id`; a full scan without a hit means there is none.
pub proof fn lemma_idx_of_is(s: Seq<EntryV>, id: nat, i: int)
    requires
        0 <= i <= s.len(),
        forall|j: int| 0 <= j < i ==> (#[trigger] s[j]).id != id,
        i < s.len() ==> s[i].id == id,
    ensures
        idx_of(s, id) == if i == s.len() {
            -1
        } else {
            i
        },
    decreases s.len(),
{
    if s.len() == 0 {
    } else if s[0].id == id {
        assert(i == 0);
    } else {
        assert forall|j: int| 0 <= j < i - 1 implies (#[trigger] s.skip(1)[j]).id != id by {
            assert(s.skip(1)[j] == s[j + 1]);
        }
        lemma_idx_of_is(s.skip(1), id, i - 1);
    }
}

/// What a non-negative `idx_of` means.
pub proof fn lemma_idx_of(s: Seq<EntryV>, id: nat)
    ensures
        -1 <= idx_of(s, id) < s.len(),
        idx_of(s, id) >= 0 ==> s[idx_of(s, id)].id == id,
        idx_of(s, id) == -1 ==> forall|j: int| 0 <= j < s.len() ==> (#[trigger] s[j]).id != id,
        forall|j: int| 0 <= j < idx_of(s, id) ==> (#[trigger] s[j]).id != id,
    decreases s.len(),
{
    if s.len() == 0 {
    } else if s[0].id == id {
    } else {
        lemma_idx_of(s.skip(1), id);
        assert forall|j: int| 0 <= j < s.len() && idx_of(s, id) == -1 implies (
        #[trigger] s[j]).id != id by {
            if j > 0 {
                assert(s.skip(1)[j - 1] == s[j]);
            }
        }
        assert forall|j: int| 0 <= j < idx_of(s, id) implies (#[trigger] s[j]).id != id by {
            if j > 0 {
                assert(s.skip(1)[j - 1] == s[j]);
            }
        }
    }
}

/// `insert_pos` is exactly the index found by a forward scan for the first
/// number at least `id`.
pub proof fn lemma_insert_pos_is(s: Seq<EntryV>, id: nat, i: int)
    requires
        0 <= i <= s.len(),
        forall|j: int| 0 <= j < i ==> (#[trigger] s[j]).id < id,
        i < s.len() ==> s[i].id >= id,
    ensures
        insert_pos(s, id) == i,
    decreases s.len(),
{
    if s.len() == 0 {
    } else if s[0].id >= id {
        assert(i == 0);
    } else {
        assert forall|j: int| 0 <= j < i - 1 implies (#[trigger] s.skip(1)[j]).id < id by {
            assert(s.skip(1)[j] == s[j + 1]);
        }
        lemma_insert_pos_is(s.skip(1), id, i - 1);
    }
}

/// Updating one entry changes the total size by the difference of sizes.
pub proof fn lemma_total_update(s: Seq<EntryV>, p: int, e: EntryV)
    requires
        0 <= p < s.len(),
    ensures
        total_size(s.update(p, e)) == total_size(s) - s[p].size + e.size,
    decreases s.len(),
{
    if p == s.len() - 1 {
        assert(s.update(p, e).drop_last() =~= s.drop_last());
        assert(s.update(p, e).last() == e);
    } else {
        assert(s.update(p, e).drop_last() =~= s.drop_last().update(p, e));
        assert(s.update(p, e).last() == s.last());
        lemma_total_update(s.drop_last(), p, e);
    }
}

/// Inserting one entry grows the total size by its size.
pub proof fn lemma_total_insert(s: Seq<EntryV>, p: int, e: EntryV)
    requires
        0 <= p <= s.len(),
    ensures
        total_size(s.insert(p, e)) == total_size(s) + e.size,
    decreases s.len(),
{
    if p == s.len() {
        assert(s.insert(p, e).drop_last() =~= s);
        assert(s.insert(p, e).last() == e);
    } else {
        assert(s.insert(p, e).drop_last() =~= s.drop_last().insert(p, e));
        assert(s.insert(p, e).last() == s.last());
        lemma_total_insert(s.drop_last(), p, e);
    }
}

/// A prefix never outweighs the whole.
pub proof fn lemma_total_prefix(s: Seq<EntryV>, i: int)
    requires
        0 <= i <= s.len(),
    ensures
        total_size(s.take(i)) <= total_size(s),
    decreases s.len() - i,
{
    if i < s.len() {
        assert(s.take(i + 1).drop_last() =~= s.take(i));
        lemma_total_prefix(s, i + 1);
    } else {
        assert(s.take(i) =~= s);
    }
}

/// The live entries never outweigh the whole store.
pub proof fn lemma_live_size_le_total(s: Seq<EntryV>)
    ensures
        live_size(s) <= total_size(s),
    decreases s.len(),
{
    if s.len() > 0 {
        lemma_live_size_le_total(s.drop_last());
    }
}

/// There are no more live entries than entries.
pub proof fn lemma_live_count_le_len(s: Seq<EntryV>)
    ensures
        live_count(s) <= s.len(),
    decreases s.len(),
{
    if s.len() > 0 {
        lemma_live_count_le_len(s.drop_last());
    }
}

// ---------------------------------------------------------------------------
// The store
// ---------------------------------------------------------------------------

/// Why a store operation failed.
#[derive(Copy, Clone, Debug, PartialEq, Eq, Structural)]
pub enum MailboxError {
    /// No entry carries the given message number, or it is marked deleted
    /// where a live one is needed.
    NotFound,
    /// The entry is already marked deleted.
    AlreadyDeleted,
}

/// One stored message's metadata.
#[derive(Debug)]
pub struct MailEntry {
    pub id: usize,
    pub size: usize,
    pub uid: String,
    pub deleted: bool,
}

impl View for MailEntry {
    type V = EntryV;

    open spec fn view(&self) -> EntryV {
        EntryV { id: self.id as nat, size: self.size as nat, uid: self.uid@, deleted: self.deleted }
    }
}

impl DeepView for MailEntry {
    type V = EntryV;

    open spec fn deep_view(&self) -> EntryV {
        self.view()
    }
}

/// Is `s` fit to serve as a unique-id?
pub fn uid_ok(s: &str) -> (r: bool)
    ensures
        r == uid_wf(s@),
{
    let n = s.unicode_len();
    if n < 1 || n > 70 {
        return false;
    }
    let mut i: usize = 0;
    while i < n
        invariant
            0 <= i <= n == s@.len(),
            1 <= n <= 70,
            forall|j: int| 0 <= j < i ==> 0x21 <= #[trigger] s@[j] as int <= 0x7e,
        decreases n - i,
    {
        let c = s.get_char(i);
        if c < '!' || c > '~' {
            return false;
        }
        i = i + 1;
    }
    true
}

/// The metadata of one mailbox.
#[derive(Debug)]
pub struct Mailbox {
    entries: Vec<MailEntry>,
}

impl View for Mailbox {
    type V = Seq<EntryV>;

    closed spec fn view(&self) -> Seq<EntryV> {
        self.entries.deep_view()
    }
}

impl Mailbox {
    /// The store's invariant.
    pub open spec fn wf(&self) -> bool {
        entries_wf(self@)
    }

    /// An empty mailbox.
    pub fn new() -> (r: Mailbox)
        ensures
            r.wf(),
            r@ == Seq::<EntryV>::empty(),
    {
        let r = Mailbox { entries: Vec::new() };
        proof {
            assert(r@ =~= Seq::<EntryV>::empty());
        }
        r
    }

    /// How many entries the store holds, deleted ones included.
    pub fn len(&self) -> (r: usize)
        ensures
            r == self@.len(),
    {
        self.entries.len()
    }

    /// Upsert one message's metadata, exactly as [`put_spec`] describes:
    /// the entry with the same number is replaced, anything else keeps its
    /// place, and the new entry carries no deletion mark.
    #[verifier::rlimit(50)]
    pub fn put(&mut self, id: usize, size: usize, uid: String) -> (r: bool)
        requires
            old(self).wf(),
        ensures
            final(self).wf(),
            r == (id >= 1 && uid_wf(uid@) && total_size(old(self)@) + size <= usize::MAX),
            r ==> final(self)@ == put_spec(
                old(self)@,
                EntryV { id: id as nat, size: size as nat, uid: uid@, deleted: false },
            ),
            !r ==> final(self)@ == old(self)@,
    {
        if id < 1 {
            return false;
        }
        if !uid_ok(uid.as_str()) {
            return false;
        }
        let ghost s = self@;
        let ghost e = EntryV { id: id as nat, size: size as nat, uid: uid@, deleted: false };
        let n = self.entries.len();
        let mut total: usize = 0;
        let mut i: usize = 0;
        while i < n
            invariant
                0 <= i <= n == s.len(),
                s == self.entries.deep_view(),
                entries_wf(s),
                total == total_size(s.take(i as int)),
            decreases n - i,
        {
            proof {
                assert(s.take(i + 1).drop_last() =~= s.take(i as int));
                assert(s.take(i + 1).last() == s[i as int]);
                lemma_total_prefix(s, i + 1);
            }
            total = total + self.entries[i].size;
            i = i + 1;
        }
        proof {
            assert(s.take(n as int) =~= s);
        }
        if size > usize::MAX - total {
            return false;
        }
        let mut pos: usize = 0;
        while pos < n && self.entries[pos].id < id
            invariant
                0 <= pos <= n == s.len(),
                s == self.entries.deep_view(),
                forall|j: int| 0 <= j < pos ==> (#[trigger] s[j]).id < id as nat,
            decreases n - pos,
        {
            pos = pos + 1;
        }
        proof {
            lemma_insert_pos_is(s, id as nat, pos as int);
        }
        if pos < n && self.entries[pos].id == id {
            let ne = MailEntry { id, size, uid, deleted: false };
            self.entries.set(pos, ne);
            proof {
                assert(self@ =~= s.update(pos as int, e));
                lemma_total_update(s, pos as int, e);
                assert(sorted_ids(self@)) by {
                    assert forall|a: int, b: int| 0 <= a < b < self@.len() implies self@[a].id
                        < self@[b].id by {
                        assert(s[a].id < s[b].id);
                    }
                }
            }
            true
        } else {
            let ne = MailEntry { id, size, uid, deleted: false };
            self.entries.insert(pos, ne);
            proof {
                assert(self@ =~= s.insert(pos as int, e));
                lemma_total_insert(s, pos as int, e);
                assert(sorted_ids(self@)) by {
                    assert forall|a: int, b: int| 0 <= a < b < self@.len() implies self@[a].id
                        < self@[b].id by {
                        if b < pos {
                            assert(s[a].id < s[b].id);
                        } else if a < pos && b == pos {
                        } else if a < pos && b > pos {
                            assert(s[a].id < s[b - 1].id);
                        } else if a == pos {
                            assert(s[pos as int].id >= id as nat && s[pos as int].id != id as nat);
                            if b > pos + 1 {
                                assert(s[b - 1].id > s[pos as int].id);
                            }
                        } else {
                            assert(s[a - 1].id < s[b - 1].id);
                        }
                    }
                }
            }
            true
        }
    }

    /// The live message count and total live size, exactly [`live_count`]
    /// and [`live_size`].
    pub fn stat(&self) -> (r: (usize, usize))
        requires
            self.wf(),
        ensures
            r.0 == live_count(self@),
            r.1 == live_size(self@),
    {
        let ghost s = self@;
        let n = self.entries.len();
        let mut count: usize = 0;
        let mut size: usize = 0;
        let mut i: usize = 0;
        while i < n
            invariant
                0 <= i <= n == s.len(),
                s == self.entries.deep_view(),
                entries_wf(s),
                count == live_count(s.take(i as int)),
                size == live_size(s.take(i as int)),
            decreases n - i,
        {
            proof {
                assert(s.take(i + 1).drop_last() =~= s.take(i as int));
                assert(s.take(i + 1).last() == s[i as int]);
                lemma_live_count_le_len(s.take(i + 1));
                lemma_live_size_le_total(s.take(i + 1));
                lemma_total_prefix(s, i + 1);
            }
            if !self.entries[i].deleted {
                count = count + 1;
                size = size + self.entries[i].size;
            }
            i = i + 1;
        }
        proof {
            assert(s.take(n as int) =~= s);
        }
        (count, size)
    }

    /// Index of the entry numbered `id`, or the length when there is none;
    /// exactly [`idx_of`] with `-1` mapped to the length.
    fn find_index(&self, id: usize) -> (r: usize)
        ensures
            idx_of(self@, id as nat) == if r == self@.len() {
                -1
            } else {
                r as int
            },
            r <= self@.len(),
    {
        let ghost s = self@;
        let n = self.entries.len();
        let mut i: usize = 0;
        while i < n && self.entries[i].id != id
            invariant
                0 <= i <= n == s.len(),
                s == self.entries.deep_view(),
                forall|j: int| 0 <= j < i ==> (#[trigger] s[j]).id != id as nat,
            decreases n - i,
        {
            i = i + 1;
        }
        proof {
            lemma_idx_of_is(s, id as nat, i as int);
        }
        i
    }

    /// The stored metadata of the message numbered `id`, deleted or not.
    pub fn get(&self, id: usize) -> (r: Option<MessageMeta>)
        ensures
            match r {
                Some(m) => has_id(self@, id as nat) && m@ == (MetaV {
                    id: self@[idx_of(self@, id as nat)].id,
                    size: self@[idx_of(self@, id as nat)].size,
                }),
                None => !has_id(self@, id as nat),
            },
    {
        let i = self.find_index(id);
        if i == self.entries.len() {
            None
        } else {
            Some(MessageMeta { id: self.entries[i].id, size: self.entries[i].size })
        }
    }

    /// The scan listing of the live message numbered `id`, if there is one.
    pub fn scan_one(&self, id: usize) -> (r: Option<MessageMeta>)
        ensures
            match r {
                Some(m) => has_live(self@, id as nat) && m@ == (MetaV {
                    id: self@[idx_of(self@, id as nat)].id,
                    size: self@[idx_of(self@, id as nat)].size,
                }),
                None => !has_live(self@, id as nat),
            },
    {
        let i = self.find_index(id);
        if i == self.entries.len() || self.entries[i].deleted {
            None
        } else {
            Some(MessageMeta { id: self.entries[i].id, size: self.entries[i].size })
        }
    }

    /// The unique-id of the live message numbered `id`, if there is one.
    pub fn uid_one(&self, id: usize) -> (r: Option<String>)
        ensures
            match r {
                Some(u) => has_live(self@, id as nat) && u@ == self@[idx_of(self@, id as nat)].uid,
                None => !has_live(self@, id as nat),
            },
    {
        let i = self.find_index(id);
        if i == self.entries.len() || self.entries[i].deleted {
            None
        } else {
            Some(self.entries[i].uid.clone())
        }
    }

    /// Mark the message numbered `id` deleted, exactly as [`mark_spec`]
    /// describes; say which way it failed otherwise, leaving the store as
    /// it was.
    pub fn mark_deleted(&mut self, id: usize) -> (r: Result<(), MailboxError>)
        requires
            old(self).wf(),
        ensures
            final(self).wf(),
            match r {
                Ok(()) => has_live(old(self)@, id as nat) && final(self)@ == mark_spec(
                    old(self)@,
                    id as nat,
                ),
                Err(MailboxError::NotFound) => !has_id(old(self)@, id as nat) && final(self)@
                    == old(self)@,
                Err(MailboxError::AlreadyDeleted) => has_id(old(self)@, id as nat) && !has_live(
                    old(self)@,
                    id as nat,
                ) && final(self)@ == old(self)@,
            },
    {
        let ghost s = self@;
        let i = self.find_index(id);
        if i == self.entries.len() {
            return Err(MailboxError::NotFound);
        }
        if self.entries[i].deleted {
            return Err(MailboxError::AlreadyDeleted);
        }
        let eid = self.entries[i].id;
        let esize = self.entries[i].size;
        let euid = self.entries[i].uid.clone();
        let ne = MailEntry { id: eid, size: esize, uid: euid, deleted: true };
        self.entries.set(i, ne);
        proof {
            let p = i as int;
            assert(ne@ =~= (EntryV { deleted: true, ..s[p] }));
            assert(self@ =~= s.update(p, EntryV { deleted: true, ..s[p] }));
            lemma_total_update(s, p, EntryV { deleted: true, ..s[p] });
            assert(sorted_ids(self@)) by {
                assert forall|a: int, b: int| 0 <= a < b < self@.len() implies self@[a].id
                    < self@[b].id by {
                    assert(s[a].id < s[b].id);
                }
            }
        }
        Ok(())
    }

    /// Lift every deletion mark, exactly as [`clear_spec`] describes.
    pub fn clear_marks(&mut self)
        requires
            old(self).wf(),
        ensures
            final(self).wf(),
            final(self)@ == clear_spec(old(self)@),
    {
        let ghost s = self@;
        let n = self.entries.len();
        let mut i: usize = 0;
        while i < n
            invariant
                0 <= i <= n == s.len(),
                self@.len() == s.len(),
                n == self.entries.len(),
                forall|j: int| 0 <= j < i ==> self@[j] == clear_spec(s)[j],
                forall|j: int| i <= j < n ==> self@[j] == s[j],
            decreases n - i,
        {
            let eid = self.entries[i].id;
            let esize = self.entries[i].size;
            let euid = self.entries[i].uid.clone();
            let ghost before = self@;
            let ne = MailEntry { id: eid, size: esize, uid: euid, deleted: false };
            self.entries.set(i, ne);
            proof {
                assert(ne@ =~= clear_spec(s)[i as int]);
                assert(self@ =~= before.update(i as int, ne@));
            }
            i = i + 1;
        }
        proof {
            assert(self@ =~= clear_spec(s));
            lemma_total_clear(s);
            assert(sorted_ids(self@)) by {
                assert forall|a: int, b: int| 0 <= a < b < self@.len() implies self@[a].id
                    < self@[b].id by {
                    assert(s[a].id < s[b].id);
                }
            }
            assert forall|j: int| 0 <= j < self@.len() implies entry_wf(#[trigger] self@[j]) by {
                assert(entry_wf(s[j]));
            }
        }
    }

    /// Physically remove every marked entry, exactly as [`live_of`]
    /// describes: what stays is the live entries, in order.
    pub fn commit(&mut self)
        requires
            old(self).wf(),
        ensures
            final(self).wf(),
            final(self)@ == live_of(old(self)@),
    {
        let ghost s = self@;
        let n = self.entries.len();
        let mut kept: Vec<MailEntry> = Vec::new();
        let mut i: usize = 0;
        proof {
            assert(kept.deep_view() =~= live_of(s.take(0)));
            assert(s.take(0) =~= Seq::<EntryV>::empty());
        }
        while i < n
            invariant
                0 <= i <= n == s.len(),
                s == self.entries.deep_view(),
                n == self.entries.len(),
                kept.deep_view() == live_of(s.take(i as int)),
            decreases n - i,
        {
            proof {
                assert(s.take(i + 1).drop_last() =~= s.take(i as int));
                assert(s.take(i + 1).last() == s[i as int]);
            }
            if !self.entries[i].deleted {
                let eid = self.entries[i].id;
                let esize = self.entries[i].size;
                let euid = self.entries[i].uid.clone();
                let ne = MailEntry { id: eid, size: esize, uid: euid, deleted: false };
                let ghost before = kept.deep_view();
                kept.push(ne);
                proof {
                    assert(ne@ =~= s[i as int]);
                    assert(kept.deep_view() =~= before + seq![s[i as int]]);
                    assert(kept.deep_view() =~= live_of(s.take(i + 1)));
                }
            } else {
                proof {
                    assert(kept.deep_view() =~= live_of(s.take(i + 1)));
                }
            }
            i = i + 1;
        }
        proof {
            assert(s.take(n as int) =~= s);
        }
        self.entries = kept;
        proof {
            lemma_live_wf(s);
        }
    }

    /// The scan listing of every live message, in number order.
    pub fn list(&self) -> (r: Vec<MessageMeta>)
        ensures
            r.deep_view() == metas_of(live_of(self@)),
    {
        let ghost s = self@;
        let n = self.entries.len();
        let mut out: Vec<MessageMeta> = Vec::new();
        let mut i: usize = 0;
        proof {
            assert(out.deep_view() =~= metas_of(live_of(s.take(0))));
        }
        while i < n
            invariant
                0 <= i <= n == s.len(),
                s == self.entries.deep_view(),
                n == self.entries.len(),
                out.deep_view() == metas_of(live_of(s.take(i as int))),
            decreases n - i,
        {
            proof {
                assert(s.take(i + 1).drop_last() =~= s.take(i as int));
                assert(s.take(i + 1).last() == s[i as int]);
            }
            if !self.entries[i].deleted {
                let ghost before = out.deep_view();
                let m = MessageMeta { id: self.entries[i].id, size: self.entries[i].size };
                let ghost mv = m@;
                out.push(m);
                proof {
                    assert(out.deep_view() =~= before + seq![mv]);
                    assert(live_of(s.take(i + 1)) =~= live_of(s.take(i as int)) + seq![s[i as int]]);
                    assert(metas_of(live_of(s.take(i + 1))) =~= metas_of(live_of(s.take(i as int)))
                        + seq![mv]);
                    assert(out.deep_view() =~= metas_of(live_of(s.take(i + 1))));
                }
            } else {
                proof {
                    assert(live_of(s.take(i + 1)) =~= live_of(s.take(i as int)));
                    assert(out.deep_view() =~= metas_of(live_of(s.take(i + 1))));
                }
            }
            i = i + 1;
        }
        proof {
            assert(s.take(n as int) =~= s);
        }
        out
    }

    /// The unique-id listing of every live message, in number order.
    pub fn uidl_list(&self) -> (r: Vec<UidlEntry>)
        ensures
            r.deep_view() == uidls_of(live_of(self@)),
    {
        let ghost s = self@;
        let n = self.entries.len();
        let mut out: Vec<UidlEntry> = Vec::new();
        let mut i: usize = 0;
        proof {
            assert(out.deep_view() =~= uidls_of(live_of(s.take(0))));
        }
        while i < n
            invariant
                0 <= i <= n == s.len(),
                s == self.entries.deep_view(),
                n == self.entries.len(),
                out.deep_view() == uidls_of(live_of(s.take(i as int))),
            decreases n - i,
        {
            proof {
                assert(s.take(i + 1).drop_last() =~= s.take(i as int));
                assert(s.take(i + 1).last() == s[i as int]);
            }
            if !self.entries[i].deleted {
                let ghost before = out.deep_view();
                let euid = self.entries[i].uid.clone();
                let e = UidlEntry { id: self.entries[i].id, uid: euid };
                let ghost ev = e@;
                out.push(e);
                proof {
                    assert(out.deep_view() =~= before + seq![ev]);
                    assert(live_of(s.take(i + 1)) =~= live_of(s.take(i as int)) + seq![s[i as int]]);
                    assert(uidls_of(live_of(s.take(i + 1))) =~= uidls_of(live_of(s.take(i as int)))
                        + seq![ev]);
                    assert(out.deep_view() =~= uidls_of(live_of(s.take(i + 1))));
                }
            } else {
                proof {
                    assert(live_of(s.take(i + 1)) =~= live_of(s.take(i as int)));
                    assert(out.deep_view() =~= uidls_of(live_of(s.take(i + 1))));
                }
            }
            i = i + 1;
        }
        proof {
            assert(s.take(n as int) =~= s);
        }
        out
    }
}

// ---------------------------------------------------------------------------
// Further lemmas: what the operations do to the live view
// ---------------------------------------------------------------------------

/// Lifting the marks leaves the total size alone.
pub proof fn lemma_total_clear(s: Seq<EntryV>)
    ensures
        total_size(clear_spec(s)) == total_size(s),
    decreases s.len(),
{
    if s.len() > 0 {
        assert(clear_spec(s).drop_last() =~= clear_spec(s.drop_last()));
        assert(clear_spec(s).last() == (EntryV { deleted: false, ..s.last() }));
        lemma_total_clear(s.drop_last());
    }
}

/// When every entry is numbered below `b`, so is every live entry.
pub proof fn lemma_live_ids_bound(s: Seq<EntryV>, b: nat)
    requires
        forall|j: int| 0 <= j < s.len() ==> (#[trigger] s[j]).id < b,
    ensures
        forall|i: int| 0 <= i < live_of(s).len() ==> (#[trigger] live_of(s)[i]).id < b,
    decreases s.len(),
{
    if s.len() > 0 {
        let s0 = s.drop_last();
        assert forall|j: int| 0 <= j < s0.len() implies (#[trigger] s0[j]).id < b by {
            assert(s[j].id < b);
        }
        lemma_live_ids_bound(s0, b);
        assert forall|i: int| 0 <= i < live_of(s).len() implies (#[trigger] live_of(s)[i]).id
            < b by {
            if i < live_of(s0).len() {
                assert(live_of(s)[i] == live_of(s0)[i]);
            } else {
                assert(live_of(s)[i] == s.last());
                assert(s[s.len() - 1].id < b);
            }
        }
    }
}

/// The live entries of a well-formed store form a well-formed store, no
/// heavier than the whole, and carry no marks.
pub proof fn lemma_live_wf(s: Seq<EntryV>)
    requires
        entries_wf(s),
    ensures
        entries_wf(live_of(s)),
        total_size(live_of(s)) <= total_size(s),
        no_marks(live_of(s)),
    decreases s.len(),
{
    if s.len() > 0 {
        let s0 = s.drop_last();
        assert(entries_wf(s0)) by {
            assert forall|j: int| 0 <= j < s0.len() implies entry_wf(#[trigger] s0[j]) by {
                assert(entry_wf(s[j]));
            }
            lemma_total_prefix(s, s.len() - 1);
            assert(s.take(s.len() - 1) =~= s0);
        }
        lemma_live_wf(s0);
        if s.last().deleted {
            assert(live_of(s) =~= live_of(s0));
        } else {
            lemma_live_ids_bound(s0, s.last().id);
            assert(total_size(live_of(s)) == total_size(live_of(s0)) + s.last().size) by {
                assert(live_of(s).drop_last() =~= live_of(s0));
                assert(live_of(s).last() == s.last());
            }
            assert(sorted_ids(live_of(s))) by {
                assert forall|a: int, b: int| 0 <= a < b < live_of(s).len() implies live_of(
                    s,
                )[a].id < live_of(s)[b].id by {
                    if b < live_of(s0).len() {
                        assert(live_of(s)[a] == live_of(s0)[a]);
                        assert(live_of(s)[b] == live_of(s0)[b]);
                    } else {
                        assert(live_of(s)[b] == s.last());
                        assert(live_of(s)[a] == live_of(s0)[a]);
                    }
                }
            }
            assert forall|i: int| 0 <= i < live_of(s).len() implies entry_wf(
                #[trigger] live_of(s)[i],
            ) by {
                if i < live_of(s0).len() {
                    assert(live_of(s)[i] == live_of(s0)[i]);
                } else {
                    assert(live_of(s)[i] == s.last());
                }
            }
            assert forall|i: int| 0 <= i < live_of(s).len() implies !(
            #[trigger] live_of(s)[i]).deleted by {
                if i < live_of(s0).len() {
                    assert(live_of(s)[i] == live_of(s0)[i]);
                } else {
                    assert(live_of(s)[i] == s.last());
                }
            }
        }
    }
}

// ---------------------------------------------------------------------------
// What marking, clearing and committing mean for the live view
// ---------------------------------------------------------------------------

/// The entries of `s` not numbered `id`, in order.
pub open spec fn drop_id(s: Seq<EntryV>, id: nat) -> Seq<EntryV>
    decreases s.len(),
{
    if s.len() == 0 {
        Seq::empty()
    } else {
        drop_id(s.drop_last(), id) + if s.last().id == id {
            Seq::empty()
        } else {
            seq![s.last()]
        }
    }
}

/// Dropping a number nobody carries drops nothing.
proof fn lemma_drop_id_absent(s: Seq<EntryV>, id: nat)
    requires
        forall|j: int| 0 <= j < s.len() ==> (#[trigger] s[j]).id != id,
    ensures
        drop_id(s, id) == s,
    decreases s.len(),
{
    if s.len() == 0 {
        assert(drop_id(s, id) =~= s);
    } else {
        assert forall|j: int| 0 <= j < s.drop_last().len() implies (
        #[trigger] s.drop_last()[j]).id != id by {
            assert(s[j].id != id);
        }
        lemma_drop_id_absent(s.drop_last(), id);
        assert(s[s.len() - 1].id != id);
        assert(drop_id(s, id) =~= s);
    }
}

/// Marking the live entry at `p` takes one off the live count, its size
/// off the live size, and its number out of the live listing.
proof fn lemma_mark_at(s: Seq<EntryV>, p: int)
    requires
        sorted_ids(s),
        0 <= p < s.len(),
        !s[p].deleted,
    ensures
        live_count(s.update(p, EntryV { deleted: true, ..s[p] })) == live_count(s) - 1,
        live_size(s.update(p, EntryV { deleted: true, ..s[p] })) == live_size(s) - s[p].size,
        live_of(s.update(p, EntryV { deleted: true, ..s[p] })) == drop_id(live_of(s), s[p].id),
    decreases s.len(),
{
    let e = EntryV { deleted: true, ..s[p] };
    let m = s.update(p, e);
    let id = s[p].id;
    if p == s.len() - 1 {
        assert(m.drop_last() =~= s.drop_last());
        assert(m.last() == e);
        assert(live_of(m) =~= live_of(s.drop_last()));
        assert(live_of(s) =~= live_of(s.drop_last()) + seq![s.last()]);
        assert(drop_id(live_of(s), id) =~= drop_id(live_of(s.drop_last()), id)) by {
            assert(live_of(s).drop_last() =~= live_of(s.drop_last()));
            assert(live_of(s).last() == s.last());
        }
        assert forall|j: int| 0 <= j < s.drop_last().len() implies (
        #[trigger] s.drop_last()[j]).id < id by {
            assert(s[j].id < s[p].id);
        }
        lemma_live_ids_bound(s.drop_last(), id);
        assert forall|j: int| 0 <= j < live_of(s.drop_last()).len() implies (
        #[trigger] live_of(s.drop_last())[j]).id != id by {
            assert(live_of(s.drop_last())[j].id < id);
        }
        lemma_drop_id_absent(live_of(s.drop_last()), id);
    } else {
        assert(sorted_ids(s.drop_last())) by {
            assert forall|a: int, b: int|
                0 <= a < b < s.drop_last().len() implies s.drop_last()[a].id
                < s.drop_last()[b].id by {
                assert(s[a].id < s[b].id);
            }
        }
        assert(m.drop_last() =~= s.drop_last().update(p, e));
        assert(m.last() == s.last());
        assert(s.drop_last()[p] == s[p]);
        lemma_mark_at(s.drop_last(), p);
        let lm = live_of(s.drop_last().update(p, e));
        let ls = live_of(s.drop_last());
        assert(lm == drop_id(ls, id));
        if s.last().deleted {
            assert(live_of(m) =~= lm);
            assert(live_of(s) =~= ls);
        } else {
            assert(live_of(m) =~= lm + seq![s.last()]);
            assert(live_of(s) =~= ls + seq![s.last()]);
            assert(s[s.len() - 1].id != id) by {
                assert(s[p].id < s[s.len() - 1].id);
            }
            assert(drop_id(ls + seq![s.last()], id) =~= drop_id(ls, id) + seq![s.last()]) by {
                assert((ls + seq![s.last()]).drop_last() =~= ls);
                assert((ls + seq![s.last()]).last() == s.last());
            }
        }
    }
}

/// Marking keeps the store well-formed: only one deletion flag moves.
pub proof fn lemma_mark_wf(s: Seq<EntryV>, id: nat)
    requires
        entries_wf(s),
    ensures
        entries_wf(mark_spec(s, id)),
        mark_spec(s, id).len() == s.len(),
    decreases s.len(),
{
    lemma_idx_of(s, id);
    let p = idx_of(s, id);
    if p >= 0 {
        let m = mark_spec(s, id);
        lemma_total_update(s, p, EntryV { deleted: true, ..s[p] });
        assert(sorted_ids(m)) by {
            assert forall|a: int, b: int| 0 <= a < b < m.len() implies m[a].id < m[b].id by {
                assert(s[a].id < s[b].id);
            }
        }
        assert forall|i: int| 0 <= i < m.len() implies entry_wf(#[trigger] m[i]) by {
            assert(entry_wf(s[i]));
        }
    }
}

/// What DELE does to the counters and the listing, and that a second DELE
/// of the same number finds the entry already marked.
pub proof fn lemma_mark_effect(s: Seq<EntryV>, id: nat)
    requires
        sorted_ids(s),
        has_live(s, id),
    ensures
        ({
            let m = mark_spec(s, id);
            let p = idx_of(s, id);
            &&& live_count(m) == live_count(s) - 1
            &&& live_size(m) == live_size(s) - s[p].size
            &&& live_of(m) == drop_id(live_of(s), id)
            &&& has_id(m, id)
            &&& !has_live(m, id)
        }),
{
    lemma_idx_of(s, id);
    let p = idx_of(s, id);
    lemma_mark_at(s, p);
    let m = mark_spec(s, id);
    assert forall|j: int| 0 <= j < p implies (#[trigger] m[j]).id != id by {
        assert(s[j].id != id);
    }
    lemma_idx_of_is(m, id, p);
}

/// Lifting the marks after any one marking gives the same store as
/// lifting them without it.
pub proof fn lemma_clear_mark(s: Seq<EntryV>, id: nat)
    ensures
        clear_spec(mark_spec(s, id)) == clear_spec(s),
{
    lemma_idx_of(s, id);
    let m = mark_spec(s, id);
    assert forall|i: int| 0 <= i < s.len() implies clear_spec(m)[i] == clear_spec(s)[i] by {
        assert(m[i].id == s[i].id && m[i].size == s[i].size && m[i].uid == s[i].uid);
        assert(clear_spec(m)[i] =~= clear_spec(s)[i]);
    }
    assert(clear_spec(m) =~= clear_spec(s));
}

/// Lifting marks from an unmarked store changes nothing.
pub proof fn lemma_clear_no_marks(s: Seq<EntryV>)
    requires
        no_marks(s),
    ensures
        clear_spec(s) == s,
{
    assert forall|i: int| 0 <= i < s.len() implies clear_spec(s)[i] == s[i] by {
        assert(!s[i].deleted);
        assert(clear_spec(s)[i] =~= s[i]);
    }
    assert(clear_spec(s) =~= s);
}

/// Carrying a number is having an entry with it.
pub proof fn lemma_has_id_iff(s: Seq<EntryV>, id: nat)
    ensures
        has_id(s, id) <==> exists|j: int| 0 <= j < s.len() && (#[trigger] s[j]).id == id,
{
    lemma_idx_of(s, id);
    if has_id(s, id) {
        let p = idx_of(s, id);
        assert(s[p].id == id);
    }
}

/// With unique numbers, a live number is an unmarked entry with it.
pub proof fn lemma_has_live_iff(s: Seq<EntryV>, id: nat)
    requires
        sorted_ids(s),
    ensures
        has_live(s, id) <==> exists|j: int|
            0 <= j < s.len() && (#[trigger] s[j]).id == id && !s[j].deleted,
{
    lemma_idx_of(s, id);
    if has_live(s, id) {
        let p = idx_of(s, id);
        assert(s[p].id == id && !s[p].deleted);
    }
    if exists|j: int| 0 <= j < s.len() && (#[trigger] s[j]).id == id && !s[j].deleted {
        let j = choose|j: int| 0 <= j < s.len() && (#[trigger] s[j]).id == id && !s[j].deleted;
        let p = idx_of(s, id);
        assert(p >= 0) by {
            if p == -1 {
                assert(s[j].id != id);
            }
        }
        assert(j == p) by {
            if j < p {
                assert(s[j].id < s[p].id);
            } else if j > p {
                assert(s[p].id < s[j].id);
            }
        }
    }
}

/// A number is in the live listing exactly when a live entry carries it.
pub proof fn lemma_live_has_id(s: Seq<EntryV>, id: nat)
    requires
        sorted_ids(s),
    ensures
        has_id(live_of(s), id) <==> has_live(s, id),
    decreases s.len(),
{
    lemma_has_id_iff(live_of(s), id);
    lemma_has_live_iff(s, id);
    lemma_live_id_exists(s, id);
}

/// The live listing carries a number exactly when some unmarked entry
/// does.
proof fn lemma_live_id_exists(s: Seq<EntryV>, id: nat)
    ensures
        (exists|i: int| 0 <= i < live_of(s).len() && (#[trigger] live_of(s)[i]).id == id) <==> (
        exists|j: int| 0 <= j < s.len() && (#[trigger] s[j]).id == id && !s[j].deleted),
    decreases s.len(),
{
    if s.len() == 0 {
    } else {
        let s0 = s.drop_last();
        lemma_live_id_exists(s0, id);
        let l = live_of(s);
        let l0 = live_of(s0);
        if s.last().deleted {
            assert(l =~= l0);
            if exists|i: int| 0 <= i < l.len() && (#[trigger] l[i]).id == id {
                let i = choose|i: int| 0 <= i < l.len() && (#[trigger] l[i]).id == id;
                assert(l0[i].id == id);
                let j = choose|j: int| 0 <= j < s0.len() && (#[trigger] s0[j]).id == id
                    && !s0[j].deleted;
                assert(s[j].id == id && !s[j].deleted);
            }
            if exists|j: int| 0 <= j < s.len() && (#[trigger] s[j]).id == id && !s[j].deleted {
                let j = choose|j: int| 0 <= j < s.len() && (#[trigger] s[j]).id == id
                    && !s[j].deleted;
                assert(j < s0.len());
                assert(s0[j].id == id && !s0[j].deleted);
                let i = choose|i: int| 0 <= i < l0.len() && (#[trigger] l0[i]).id == id;
                assert(l[i].id == id);
            }
        } else {
            assert(l =~= l0 + seq![s.last()]);
            if exists|i: int| 0 <= i < l.len() && (#[trigger] l[i]).id == id {
                let i = choose|i: int| 0 <= i < l.len() && (#[trigger] l[i]).id == id;
                if i < l0.len() {
                    assert(l0[i].id == id);
                    let j = choose|j: int| 0 <= j < s0.len() && (#[trigger] s0[j]).id == id
                        && !s0[j].deleted;
                    assert(s[j].id == id && !s[j].deleted);
                } else {
                    assert(l[i] == s.last());
                    assert(s[s.len() - 1].id == id && !s[s.len() - 1].deleted);
                }
            }
            if exists|j: int| 0 <= j < s.len() && (#[trigger] s[j]).id == id && !s[j].deleted {
                let j = choose|j: int| 0 <= j < s.len() && (#[trigger] s[j]).id == id
                    && !s[j].deleted;
                if j < s0.len() {
                    assert(s0[j].id == id && !s0[j].deleted);
                    let i = choose|i: int| 0 <= i < l0.len() && (#[trigger] l0[i]).id == id;
                    assert(l[i].id == id);
                } else {
                    assert(l[l.len() - 1] == s.last());
                    assert(l[l.len() - 1].id == id);
                }
            }
        }
    }
}


} // verus!
