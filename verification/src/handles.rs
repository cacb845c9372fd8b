//! Navigation handles: read-only, parent-aware views into a book.
//!
//! A handle is cheap and stateless: a reference to the immutable book (or to
//! its constructed parent handle) plus the table position of its entry. It
//! carries no ownership, may be freely cloned and discarded, and cannot
//! outlive the book. Traversal is downward (book, room, noun, conversation,
//! line) or upward one level via the parent; the only cross-links are line to
//! talker to role, looked up in the book's global tables.

use vstd::prelude::*;

use crate::book::{
    key_lt, noun_sorted, room_sorted, Book, ConditionEntry, ConditionId, ConversationEntry,
    ConversationId, ConversationKey, LineEntry, LineId, NounEntry, NounId, RoleEntry, RoleId,
    RoomEntry, RoomId, TalkerEntry, TalkerId, VerbEntry, VerbId,
};

verus! {

/// A view of one room.
#[derive(Clone, Copy)]
pub struct Room<'a> {
    pub parent: &'a Book,
    pub idx: usize,
}

/// A view of one noun within its room.
#[derive(Clone, Copy)]
pub struct Noun<'a> {
    pub parent: Room<'a>,
    pub idx: usize,
}

/// A view of one condition within its room.
#[derive(Clone, Copy)]
pub struct Condition<'a> {
    pub parent: Room<'a>,
    pub idx: usize,
}

/// A view of one conversation within its noun.
#[derive(Clone, Copy)]
pub struct Conversation<'a> {
    pub parent: Noun<'a>,
    pub idx: usize,
}

/// A view of one dialogue line within its conversation.
#[derive(Clone, Copy)]
pub struct Line<'a> {
    pub parent: Conversation<'a>,
    pub idx: usize,
}

/// A view of one verb in the book's global table.
#[derive(Clone, Copy)]
pub struct Verb<'a> {
    pub parent: &'a Book,
    pub idx: usize,
}

/// A view of one talker in the book's global table.
#[derive(Clone, Copy)]
pub struct Talker<'a> {
    pub parent: &'a Book,
    pub idx: usize,
}

/// A view of one role in the book's global table.
#[derive(Clone, Copy)]
pub struct Role<'a> {
    pub parent: &'a Book,
    pub idx: usize,
}

impl<'a> Room<'a> {
    /// A room handle is valid when its book is well formed and its position
    /// lies inside the room table.
    pub open spec fn wf(&self) -> bool {
        self.parent.wf() && self.idx < self.parent.rooms@.len()
    }

    /// The raw room number this handle stands at.
    pub open spec fn key(&self) -> u16 {
        self.parent.rooms@[self.idx as int].0
    }

    /// The entry this handle stands at.
    pub open spec fn entry(&self) -> RoomEntry {
        self.parent.rooms@[self.idx as int].1
    }

    /// The noun handles of this room, in table order.
    pub open spec fn spec_nouns(&self) -> Seq<Noun<'a>> {
        Seq::new(self.entry().nouns@.len(), |j: int| Noun { parent: *self, idx: j as usize })
    }

    /// The condition handles of this room, in table order.
    pub open spec fn spec_conditions(&self) -> Seq<Condition<'a>> {
        Seq::new(
            self.entry().conditions@.len(),
            |j: int| Condition { parent: *self, idx: j as usize },
        )
    }

    pub fn id(&self) -> (r: RoomId)
        requires
            self.wf(),
        ensures
            r == RoomId(self.key()),
    {
        RoomId(self.parent.rooms[self.idx].0)
    }

    /// The room's display name, or a placeholder when none was recorded.
    pub fn name(&self) -> (r: &str)
        requires
            self.wf(),
        ensures
            match self.entry().name {
                Some(n) => r@ == n@,
                None => r@ == "*NO NAME*"@,
            },
    {
        match &self.parent.rooms[self.idx].1.name {
            Some(n) => n.as_str(),
            None => "*NO NAME*",
        }
    }

    /// All nouns of this room, in ascending raw-identifier order.
    pub fn nouns(&self) -> (r: Vec<Noun<'a>>)
        requires
            self.wf(),
        ensures
            r@ == self.spec_nouns(),
            forall|i: int| 0 <= i < r@.len() ==> (#[trigger] r@[i]).wf(),
            forall|i: int, j: int| 0 <= i < j < r@.len() ==> r@[i].key() < r@[j].key(),
    {
        let mut out: Vec<Noun<'a>> = Vec::new();
        let n = self.parent.rooms[self.idx].1.nouns.len();
        let mut j: usize = 0;
        while j < n
            invariant
                self.wf(),
                n == self.entry().nouns@.len(),
                j <= n,
                out@.len() == j,
                forall|k: int| 0 <= k < j ==> out@[k] == self.spec_nouns()[k],
            decreases n - j,
        {
            out.push(Noun { parent: *self, idx: j });
            j = j + 1;
        }
        proof {
            assert(out@ =~= self.spec_nouns());
            assert(room_sorted(self.parent.rooms@[self.idx as int].1));
        }
        out
    }

    /// All conditions of this room, in ascending raw-identifier order.
    pub fn conditions(&self) -> (r: Vec<Condition<'a>>)
        requires
            self.wf(),
        ensures
            r@ == self.spec_conditions(),
            forall|i: int| 0 <= i < r@.len() ==> (#[trigger] r@[i]).wf(),
            forall|i: int, j: int| 0 <= i < j < r@.len() ==> r@[i].key() < r@[j].key(),
    {
        let mut out: Vec<Condition<'a>> = Vec::new();
        let n = self.parent.rooms[self.idx].1.conditions.len();
        let mut j: usize = 0;
        while j < n
            invariant
                self.wf(),
                n == self.entry().conditions@.len(),
                j <= n,
                out@.len() == j,
                forall|k: int| 0 <= k < j ==> out@[k] == self.spec_conditions()[k],
            decreases n - j,
        {
            out.push(Condition { parent: *self, idx: j });
            j = j + 1;
        }
        proof {
            assert(out@ =~= self.spec_conditions());
            assert(room_sorted(self.parent.rooms@[self.idx as int].1));
        }
        out
    }

    /// Looks a condition up by raw identifier within this room.
    pub(crate) fn get_condition_inner(&self, raw_id: u8) -> (r: Option<Condition<'a>>)
        requires
            self.wf(),
        ensures
            r is Some <==> exists|j: int|
                0 <= j < self.entry().conditions@.len() && self.entry().conditions@[j].0 == raw_id,
            match r {
                Some(c) => c.wf() && c.parent == *self && c.key() == raw_id,
                None => true,
            },
    {
        let conds = &self.parent.rooms[self.idx].1.conditions;
        let mut j: usize = 0;
        while j < conds.len()
            invariant
                self.wf(),
                conds@ == self.entry().conditions@,
                j <= conds@.len(),
                forall|k: int| 0 <= k < j ==> self.entry().conditions@[k].0 != raw_id,
            decreases conds@.len() - j,
        {
            if conds[j].0 == raw_id {
                return Some(Condition { parent: *self, idx: j });
            }
            j = j + 1;
        }
        None
    }

    /// Looks a noun up by raw identifier within this room.
    pub(crate) fn get_noun_inner(&self, raw_id: u8) -> (r: Option<Noun<'a>>)
        requires
            self.wf(),
        ensures
            r is Some <==> exists|j: int|
                0 <= j < self.entry().nouns@.len() && self.entry().nouns@[j].0 == raw_id,
            match r {
                Some(n) => n.wf() && n.parent == *self && n.key() == raw_id,
                None => true,
            },
    {
        let nouns = &self.parent.rooms[self.idx].1.nouns;
        let mut j: usize = 0;
        while j < nouns.len()
            invariant
                self.wf(),
                nouns@ == self.entry().nouns@,
                j <= nouns@.len(),
                forall|k: int| 0 <= k < j ==> self.entry().nouns@[k].0 != raw_id,
            decreases nouns@.len() - j,
        {
            if nouns[j].0 == raw_id {
                return Some(Noun { parent: *self, idx: j });
            }
            j = j + 1;
        }
        None
    }

    fn book(&self) -> (r: &'a Book)
        ensures
            r == self.parent,
    {
        self.parent
    }
}

/// A valid room handle's identifier resolves back to its own table position:
/// the room number is present, and it names exactly this entry.
pub proof fn lemma_room_resolves(r: Room)
    requires
        r.wf(),
    ensures
        r.parent.has_room(r.key()),
        r.parent.room_index(r.key()) == r.idx,
        r.parent.spec_room(r.key()) == r.entry(),
{
    assert(r.parent.rooms@[r.idx as int].0 == r.key());
    crate::book::lemma_sorted_u16_unique(
        r.parent.rooms@,
        r.parent.room_index(r.key()),
        r.idx as int,
    );
}

impl<'a> Noun<'a> {
    /// A noun handle is valid when its room handle is and its position lies
    /// inside the room's noun table.
    pub open spec fn wf(&self) -> bool {
        self.parent.wf() && self.idx < self.parent.entry().nouns@.len()
    }

    /// The raw noun number this handle stands at.
    pub open spec fn key(&self) -> u8 {
        self.parent.entry().nouns@[self.idx as int].0
    }

    /// The entry this handle stands at.
    pub open spec fn entry(&self) -> NounEntry {
        self.parent.entry().nouns@[self.idx as int].1
    }

    /// The book this handle borrows.
    pub open spec fn spec_book(&self) -> &'a Book {
        self.parent.parent
    }

    /// The conversation handles of this noun, in table order.
    pub open spec fn spec_conversations(&self) -> Seq<Conversation<'a>> {
        Seq::new(
            self.entry().conversations@.len(),
            |j: int| Conversation { parent: *self, idx: j as usize },
        )
    }

    pub fn id(&self) -> (r: NounId)
        requires
            self.wf(),
        ensures
            r == NounId(RoomId(self.parent.key()), self.key()),
    {
        NounId(self.parent.id(), self.parent.parent.rooms[self.parent.idx].1.nouns[self.idx].0)
    }

    /// The noun's description, when one was recorded.
    pub fn desc(&self) -> (r: Option<&str>)
        requires
            self.wf(),
        ensures
            match (r, self.entry().desc) {
                (Some(s), Some(d)) => s@ == d@,
                (None, None) => true,
                _ => false,
            },
    {
        match &self.parent.parent.rooms[self.parent.idx].1.nouns[self.idx].1.desc {
            Some(d) => Some(d.as_str()),
            None => None,
        }
    }

    /// The room this noun is part of.
    pub fn room(&self) -> (r: Room<'a>)
        ensures
            r == self.parent,
    {
        self.parent
    }

    /// All conversations of this noun, in ascending conversation-key order.
    pub fn conversations(&self) -> (r: Vec<Conversation<'a>>)
        requires
            self.wf(),
        ensures
            r@ == self.spec_conversations(),
            forall|i: int| 0 <= i < r@.len() ==> (#[trigger] r@[i]).wf(),
            forall|i: int, j: int| 0 <= i < j < r@.len() ==> key_lt(r@[i].key(), r@[j].key()),
    {
        let mut out: Vec<Conversation<'a>> = Vec::new();
        let n = self.parent.parent.rooms[self.parent.idx].1.nouns[self.idx].1.conversations.len();
        let mut j: usize = 0;
        while j < n
            invariant
                self.wf(),
                n == self.entry().conversations@.len(),
                j <= n,
                out@.len() == j,
                forall|k: int| 0 <= k < j ==> out@[k] == self.spec_conversations()[k],
            decreases n - j,
        {
            out.push(Conversation { parent: *self, idx: j });
            j = j + 1;
        }
        proof {
            assert(out@ =~= self.spec_conversations());
            assert(room_sorted(self.parent.parent.rooms@[self.parent.idx as int].1));
            assert(noun_sorted(self.parent.entry().nouns@[self.idx as int].1));
        }
        out
    }

    /// Looks a conversation up by key within this noun.
    pub(crate) fn get_conversation_inner(&self, raw_id: ConversationKey) -> (r: Option<
        Conversation<'a>,
    >)
        requires
            self.wf(),
        ensures
            r is Some <==> exists|j: int|
                0 <= j < self.entry().conversations@.len() && self.entry().conversations@[j].0
                    == raw_id,
            match r {
                Some(c) => c.wf() && c.parent == *self && c.key() == raw_id,
                None => true,
            },
    {
        let convs = &self.parent.parent.rooms[self.parent.idx].1.nouns[self.idx].1.conversations;
        let mut j: usize = 0;
        while j < convs.len()
            invariant
                self.wf(),
                convs@ == self.entry().conversations@,
                j <= convs@.len(),
                forall|k: int| 0 <= k < j ==> self.entry().conversations@[k].0 != raw_id,
            decreases convs@.len() - j,
        {
            if convs[j].0 == raw_id {
                return Some(Conversation { parent: *self, idx: j });
            }
            j = j + 1;
        }
        None
    }

    fn book(&self) -> (r: &'a Book)
        ensures
            r == self.spec_book(),
    {
        self.parent.book()
    }
}

/// A valid noun handle's composite identifier resolves back to its own table
/// position within its room.
pub proof fn lemma_noun_resolves(n: Noun)
    requires
        n.wf(),
    ensures
        n.spec_book().has_noun(n.parent.key(), n.key()),
        n.spec_book().noun_index(n.parent.key(), n.key()) == n.idx,
        n.spec_book().spec_noun(n.parent.key(), n.key()) == n.entry(),
{
    let b = n.spec_book();
    lemma_room_resolves(n.parent);
    assert(b.spec_room(n.parent.key()) == n.parent.entry());
    assert(n.parent.entry().nouns@[n.idx as int].0 == n.key());
    assert(room_sorted(b.rooms@[n.parent.idx as int].1));
    crate::book::lemma_sorted_u8_unique(
        n.parent.entry().nouns@,
        b.noun_index(n.parent.key(), n.key()),
        n.idx as int,
    );
}

impl<'a> Condition<'a> {
    /// A condition handle is valid when its room handle is and its position
    /// lies inside the room's condition table.
    pub open spec fn wf(&self) -> bool {
        self.parent.wf() && self.idx < self.parent.entry().conditions@.len()
    }

    /// The raw condition number this handle stands at.
    pub open spec fn key(&self) -> u8 {
        self.parent.entry().conditions@[self.idx as int].0
    }

    /// The entry this handle stands at.
    pub open spec fn entry(&self) -> ConditionEntry {
        self.parent.entry().conditions@[self.idx as int].1
    }

    pub fn id(&self) -> (r: ConditionId)
        requires
            self.wf(),
        ensures
            r == ConditionId(RoomId(self.parent.key()), self.key()),
    {
        ConditionId(
            self.parent.id(),
            self.parent.parent.rooms[self.parent.idx].1.conditions[self.idx].0,
        )
    }

    /// The condition's description, when one was supplied during ingestion.
    pub fn desc(&self) -> (r: Option<&str>)
        requires
            self.wf(),
        ensures
            match (r, self.entry().desc) {
                (Some(s), Some(d)) => s@ == d@,
                (None, None) => true,
                _ => false,
            },
    {
        match &self.parent.parent.rooms[self.parent.idx].1.conditions[self.idx].1.desc {
            Some(d) => Some(d.as_str()),
            None => None,
        }
    }

    /// The room this condition is part of.
    pub fn room(&self) -> (r: Room<'a>)
        ensures
            r == self.parent,
    {
        self.parent
    }

    fn book(&self) -> (r: &'a Book)
        ensures
            r == self.parent.parent,
    {
        self.parent.book()
    }
}

impl<'a> Conversation<'a> {
    /// A conversation handle is valid when its noun handle is and its
    /// position lies inside the noun's conversation table.
    pub open spec fn wf(&self) -> bool {
        self.parent.wf() && self.idx < self.parent.entry().conversations@.len()
    }

    /// The conversation key this handle stands at.
    pub open spec fn key(&self) -> ConversationKey {
        self.parent.entry().conversations@[self.idx as int].0
    }

    /// The entry this handle stands at.
    pub open spec fn entry(&self) -> ConversationEntry {
        self.parent.entry().conversations@[self.idx as int].1
    }

    /// The book this handle borrows.
    pub open spec fn spec_book(&self) -> &'a Book {
        self.parent.spec_book()
    }

    /// The line handles of this conversation, in table order.
    pub open spec fn spec_lines(&self) -> Seq<Line<'a>> {
        Seq::new(self.entry().lines@.len(), |j: int| Line { parent: *self, idx: j as usize })
    }

    pub fn id(&self) -> (r: ConversationId)
        requires
            self.wf(),
        ensures
            r == ConversationId(NounId(RoomId(self.parent.parent.key()), self.parent.key()), self.key()),
    {
        let noun = &self.parent;
        ConversationId(
            noun.id(),
            noun.parent.parent.rooms[noun.parent.idx].1.nouns[noun.idx].1.conversations[self.idx].0,
        )
    }

    /// All lines of this conversation, in ascending sequence-number order.
    pub fn lines(&self) -> (r: Vec<Line<'a>>)
        requires
            self.wf(),
        ensures
            r@ == self.spec_lines(),
            forall|i: int| 0 <= i < r@.len() ==> (#[trigger] r@[i]).wf(),
            forall|i: int, j: int| 0 <= i < j < r@.len() ==> r@[i].key() < r@[j].key(),
    {
        let noun = &self.parent;
        let mut out: Vec<Line<'a>> = Vec::new();
        let n =
            noun.parent.parent.rooms[noun.parent.idx].1.nouns[noun.idx].1.conversations[self.idx].1.lines.len();
        let mut j: usize = 0;
        while j < n
            invariant
                self.wf(),
                n == self.entry().lines@.len(),
                j <= n,
                out@.len() == j,
                forall|k: int| 0 <= k < j ==> out@[k] == self.spec_lines()[k],
            decreases n - j,
        {
            out.push(Line { parent: *self, idx: j });
            j = j + 1;
        }
        proof {
            assert(out@ =~= self.spec_lines());
            assert(room_sorted(self.parent.parent.parent.rooms@[self.parent.parent.idx as int].1));
            assert(noun_sorted(self.parent.parent.entry().nouns@[self.parent.idx as int].1));
            assert(crate::book::conv_sorted(
                self.parent.entry().conversations@[self.idx as int].1,
            ));
        }
        out
    }

    /// The noun this conversation is part of.
    pub fn noun(&self) -> (r: Noun<'a>)
        ensures
            r == self.parent,
    {
        self.parent
    }

    /// The verb used for this conversation, if its key names one: a verb
    /// slot of 0 means "no specific verb required" and yields `None`.
    pub fn verb(&self) -> (r: Option<Verb<'a>>)
        requires
            self.wf(),
        ensures
            r is Some <==> self.key().verb != 0,
            match r {
                Some(v) => v.wf() && v.parent == self.spec_book() && v.key() == self.key().verb,
                None => true,
            },
    {
        let noun = &self.parent;
        let vk =
            noun.parent.parent.rooms[noun.parent.idx].1.nouns[noun.idx].1.conversations[self.idx].0.verb;
        if vk == 0 {
            return None;
        }
        let b = self.book();
        proof {
            assert(b.has_verb(vk)) by {
                assert(b.rooms@[noun.parent.idx as int].1.nouns@[noun.idx as int].1.conversations@[self.idx as int].0.verb
                    == vk);
            }
        }
        match b.find_verb(vk) {
            Some(i) => Some(Verb { parent: b, idx: i }),
            None => {
                proof {
                    assert(false);
                }
                unreached()
            },
        }
    }

    /// The condition gating this conversation, if its key names one. A
    /// condition slot of 0 means "no condition gating". A nonzero condition
    /// absent from the room's table means the condition was already cleared:
    /// an expected absent case, reported as `None`, never a fault.
    pub fn condition(&self) -> (r: Option<Condition<'a>>)
        requires
            self.wf(),
        ensures
            r is Some <==> (self.key().condition != 0 && exists|j: int|
                0 <= j < self.parent.parent.entry().conditions@.len()
                    && self.parent.parent.entry().conditions@[j].0 == self.key().condition),
            match r {
                Some(c) => c.wf() && c.parent == self.parent.parent && c.key()
                    == self.key().condition,
                None => true,
            },
    {
        let noun = &self.parent;
        let ck =
            noun.parent.parent.rooms[noun.parent.idx].1.nouns[noun.idx].1.conversations[self.idx].0.condition;
        if ck == 0 {
            return None;
        }
        self.noun().room().get_condition_inner(ck)
    }

    /// Looks a line up by raw sequence number within this conversation.
    pub(crate) fn get_line_inner(&self, raw_id: u8) -> (r: Option<Line<'a>>)
        requires
            self.wf(),
        ensures
            r is Some <==> exists|j: int|
                0 <= j < self.entry().lines@.len() && self.entry().lines@[j].0 == raw_id,
            match r {
                Some(l) => l.wf() && l.parent == *self && l.key() == raw_id,
                None => true,
            },
    {
        let noun = &self.parent;
        let lines =
            &noun.parent.parent.rooms[noun.parent.idx].1.nouns[noun.idx].1.conversations[self.idx].1.lines;
        let mut j: usize = 0;
        while j < lines.len()
            invariant
                self.wf(),
                lines@ == self.entry().lines@,
                j <= lines@.len(),
                forall|k: int| 0 <= k < j ==> self.entry().lines@[k].0 != raw_id,
            decreases lines@.len() - j,
        {
            if lines[j].0 == raw_id {
                return Some(Line { parent: *self, idx: j });
            }
            j = j + 1;
        }
        None
    }

    fn book(&self) -> (r: &'a Book)
        ensures
            r == self.spec_book(),
    {
        self.parent.book()
    }
}

/// A valid conversation handle's composite identifier resolves back to its
/// own table position within its noun.
pub proof fn lemma_conversation_resolves(c: Conversation)
    requires
        c.wf(),
    ensures
        c.spec_book().has_conversation(c.parent.parent.key(), c.parent.key(), c.key()),
        c.spec_book().conversation_index(c.parent.parent.key(), c.parent.key(), c.key()) == c.idx,
        c.spec_book().spec_conversation(c.parent.parent.key(), c.parent.key(), c.key())
            == c.entry(),
{
    let b = c.spec_book();
    lemma_noun_resolves(c.parent);
    assert(c.parent.entry().conversations@[c.idx as int].0 == c.key());
    assert(room_sorted(b.rooms@[c.parent.parent.idx as int].1));
    assert(noun_sorted(c.parent.parent.entry().nouns@[c.parent.idx as int].1));
    crate::book::lemma_sorted_key_unique(
        c.parent.entry().conversations@,
        b.conversation_index(c.parent.parent.key(), c.parent.key(), c.key()),
        c.idx as int,
    );
}

impl<'a> Line<'a> {
    /// A line handle is valid when its conversation handle is and its
    /// position lies inside the conversation's line table.
    pub open spec fn wf(&self) -> bool {
        self.parent.wf() && self.idx < self.parent.entry().lines@.len()
    }

    /// The raw sequence number this handle stands at.
    pub open spec fn key(&self) -> u8 {
        self.parent.entry().lines@[self.idx as int].0
    }

    /// The entry this handle stands at.
    pub open spec fn entry(&self) -> LineEntry {
        self.parent.entry().lines@[self.idx as int].1
    }

    /// The book this handle borrows.
    pub open spec fn spec_book(&self) -> &'a Book {
        self.parent.spec_book()
    }

    pub fn id(&self) -> (r: LineId)
        requires
            self.wf(),
        ensures
            r == LineId(
                ConversationId(
                    NounId(
                        RoomId(self.parent.parent.parent.key()),
                        self.parent.parent.key(),
                    ),
                    self.parent.key(),
                ),
                self.key(),
            ),
    {
        let conv = &self.parent;
        let noun = &conv.parent;
        LineId(
            conv.id(),
            noun.parent.parent.rooms[noun.parent.idx].1.nouns[noun.idx].1.conversations[conv.idx].1.lines[self.idx].0,
        )
    }

    /// The line's text.
    pub fn text(&self) -> (r: &str)
        requires
            self.wf(),
        ensures
            r@ == self.entry().text@,
    {
        let conv = &self.parent;
        let noun = &conv.parent;
        noun.parent.parent.rooms[noun.parent.idx].1.nouns[noun.idx].1.conversations[conv.idx].1.lines[self.idx].1.text.as_str()
    }

    /// The talker speaking this line. Well-formedness guarantees the talker
    /// entry exists: its absence would be an internal-consistency fault, not
    /// a normal "missing" case.
    pub fn talker(&self) -> (r: Talker<'a>)
        requires
            self.wf(),
        ensures
            r.wf() && r.parent == self.spec_book() && r.key() == self.entry().talker,
    {
        let conv = &self.parent;
        let noun = &conv.parent;
        let t =
            noun.parent.parent.rooms[noun.parent.idx].1.nouns[noun.idx].1.conversations[conv.idx].1.lines[self.idx].1.talker;
        let b = self.book();
        proof {
            assert(b.has_talker(t)) by {
                assert(b.rooms@[noun.parent.idx as int].1.nouns@[noun.idx as int].1.conversations@[conv.idx as int].1.lines@[self.idx as int].1.talker
                    == t);
            }
        }
        match b.find_talker(t) {
            Some(i) => Talker { parent: b, idx: i },
            None => {
                proof {
                    assert(false);
                }
                unreached()
            },
        }
    }

    /// The role this line is spoken as, via its talker.
    pub fn role(&self) -> (r: Role<'a>)
        requires
            self.wf(),
        ensures
            r.wf() && r.parent == self.spec_book() && r.key_view() == self.spec_book().spec_talker(
                self.entry().talker,
            ).role_id@,
    {
        let t = self.talker();
        proof {
            lemma_talker_resolves(t);
        }
        t.role()
    }

    /// The conversation this line is part of.
    pub fn conversation(&self) -> (r: Conversation<'a>)
        ensures
            r == self.parent,
    {
        self.parent
    }

    fn book(&self) -> (r: &'a Book)
        ensures
            r == self.spec_book(),
    {
        self.parent.book()
    }
}

/// A valid line handle's composite identifier resolves back to its own table
/// position within its conversation.
pub proof fn lemma_line_resolves(l: Line)
    requires
        l.wf(),
    ensures
        l.spec_book().has_line(
            l.parent.parent.parent.key(),
            l.parent.parent.key(),
            l.parent.key(),
            l.key(),
        ),
        l.spec_book().line_index(
            l.parent.parent.parent.key(),
            l.parent.parent.key(),
            l.parent.key(),
            l.key(),
        ) == l.idx,
        l.spec_book().spec_line(
            l.parent.parent.parent.key(),
            l.parent.parent.key(),
            l.parent.key(),
            l.key(),
        ) == l.entry(),
{
    let b = l.spec_book();
    lemma_conversation_resolves(l.parent);
    assert(l.parent.entry().lines@[l.idx as int].0 == l.key());
    assert(room_sorted(b.rooms@[l.parent.parent.parent.idx as int].1));
    assert(noun_sorted(l.parent.parent.parent.entry().nouns@[l.parent.parent.idx as int].1));
    assert(crate::book::conv_sorted(
        l.parent.parent.entry().conversations@[l.parent.idx as int].1,
    ));
    crate::book::lemma_sorted_u8_unique(
        l.parent.entry().lines@,
        b.line_index(
            l.parent.parent.parent.key(),
            l.parent.parent.key(),
            l.parent.key(),
            l.key(),
        ),
        l.idx as int,
    );
}

impl<'a> Verb<'a> {
    /// A verb handle is valid when its book is well formed and its position
    /// lies inside the verb table.
    pub open spec fn wf(&self) -> bool {
        self.parent.wf() && self.idx < self.parent.verbs@.len()
    }

    /// The raw verb number this handle stands at.
    pub open spec fn key(&self) -> u8 {
        self.parent.verbs@[self.idx as int].0
    }

    /// The entry this handle stands at.
    pub open spec fn entry(&self) -> VerbEntry {
        self.parent.verbs@[self.idx as int].1
    }

    pub fn id(&self) -> (r: VerbId)
        requires
            self.wf(),
        ensures
            r == VerbId(self.key()),
    {
        VerbId(self.parent.verbs[self.idx].0)
    }

    /// The verb's display name.
    pub fn name(&self) -> (r: &str)
        requires
            self.wf(),
        ensures
            r@ == self.entry().name@,
    {
        self.parent.verbs[self.idx].1.name.as_str()
    }

    fn book(&self) -> (r: &'a Book)
        ensures
            r == self.parent,
    {
        self.parent
    }
}

/// A valid verb handle's identifier resolves back to its own table position.
pub proof fn lemma_verb_resolves(v: Verb)
    requires
        v.wf(),
    ensures
        v.parent.has_verb(v.key()),
        v.parent.verb_index(v.key()) == v.idx,
        v.parent.spec_verb(v.key()) == v.entry(),
{
    assert(v.parent.verbs@[v.idx as int].0 == v.key());
    crate::book::lemma_sorted_u8_unique(v.parent.verbs@, v.parent.verb_index(v.key()), v.idx as int);
}

impl<'a> Talker<'a> {
    /// A talker handle is valid when its book is well formed and its
    /// position lies inside the talker table.
    pub open spec fn wf(&self) -> bool {
        self.parent.wf() && self.idx < self.parent.talkers@.len()
    }

    /// The raw talker number this handle stands at.
    pub open spec fn key(&self) -> u8 {
        self.parent.talkers@[self.idx as int].0
    }

    /// The entry this handle stands at.
    pub open spec fn entry(&self) -> TalkerEntry {
        self.parent.talkers@[self.idx as int].1
    }

    pub fn id(&self) -> (r: TalkerId)
        requires
            self.wf(),
        ensures
            r == TalkerId(self.key()),
    {
        TalkerId(self.parent.talkers[self.idx].0)
    }

    /// The role this talker speaks as. Well-formedness guarantees the role
    /// entry exists: its absence would be an internal-consistency fault.
    pub fn role(&self) -> (r: Role<'a>)
        requires
            self.wf(),
        ensures
            r.wf() && r.parent == self.parent && r.key_view() == self.entry().role_id@,
    {
        proof {
            assert(self.parent.has_role(self.parent.talkers@[self.idx as int].1.role_id@));
        }
        match self.parent.find_role(&self.parent.talkers[self.idx].1.role_id) {
            Some(i) => Role { parent: self.parent, idx: i },
            None => {
                proof {
                    assert(false);
                }
                unreached()
            },
        }
    }

    fn book(&self) -> (r: &'a Book)
        ensures
            r == self.parent,
    {
        self.parent
    }
}

/// A valid talker handle's identifier resolves back to its own table
/// position.
pub proof fn lemma_talker_resolves(t: Talker)
    requires
        t.wf(),
    ensures
        t.parent.has_talker(t.key()),
        t.parent.talker_index(t.key()) == t.idx,
        t.parent.spec_talker(t.key()) == t.entry(),
{
    assert(t.parent.talkers@[t.idx as int].0 == t.key());
    crate::book::lemma_sorted_u8_unique(
        t.parent.talkers@,
        t.parent.talker_index(t.key()),
        t.idx as int,
    );
}

impl<'a> Role<'a> {
    /// A role handle is valid when its book is well formed and its position
    /// lies inside the role table.
    pub open spec fn wf(&self) -> bool {
        self.parent.wf() && self.idx < self.parent.roles@.len()
    }

    /// The raw string identifier this handle stands at.
    pub open spec fn key_view(&self) -> Seq<char> {
        self.parent.roles@[self.idx as int].0@
    }

    /// The entry this handle stands at.
    pub open spec fn entry(&self) -> RoleEntry {
        self.parent.roles@[self.idx as int].1
    }

    pub fn id(&self) -> (r: RoleId)
        requires
            self.wf(),
        ensures
            r.0@ == self.key_view(),
    {
        RoleId(self.parent.roles[self.idx].0.clone())
    }

    /// The full name of the role.
    pub fn name(&self) -> (r: &str)
        requires
            self.wf(),
        ensures
            r@ == self.entry().name@,
    {
        self.parent.roles[self.idx].1.name.as_str()
    }

    /// The short name of the role.
    pub fn short_name(&self) -> (r: &str)
        requires
            self.wf(),
        ensures
            r@ == self.entry().short_name@,
    {
        self.parent.roles[self.idx].1.short_name.as_str()
    }

    fn book(&self) -> (r: &'a Book)
        ensures
            r == self.parent,
    {
        self.parent
    }
}

/// A valid role handle's identifier resolves back to its own table position.
pub proof fn lemma_role_resolves(r: Role)
    requires
        r.wf(),
    ensures
        r.parent.has_role(r.key_view()),
        r.parent.role_index(r.key_view()) == r.idx,
        r.parent.spec_role(r.key_view()) == r.entry(),
{
    assert(r.parent.roles@[r.idx as int].0@ == r.key_view());
    crate::book::lemma_sorted_roles_unique(
        r.parent.roles@,
        r.parent.role_index(r.key_view()),
        r.idx as int,
    );
}

/// A valid condition handle's composite identifier resolves back to its own
/// table position within its room.
pub proof fn lemma_condition_resolves(c: Condition)
    requires
        c.wf(),
    ensures
        c.parent.parent.has_condition(c.parent.key(), c.key()),
        c.parent.parent.condition_index(c.parent.key(), c.key()) == c.idx,
        c.parent.parent.spec_condition(c.parent.key(), c.key()) == c.entry(),
{
    let b = c.parent.parent;
    lemma_room_resolves(c.parent);
    assert(c.parent.entry().conditions@[c.idx as int].0 == c.key());
    assert(room_sorted(b.rooms@[c.parent.idx as int].1));
    crate::book::lemma_sorted_u8_unique(
        c.parent.entry().conditions@,
        b.condition_index(c.parent.key(), c.key()),
        c.idx as int,
    );
}

/// The conversation handles of a prefix of a noun list, flattened in order.
pub open spec fn flat_conversations<'a>(nouns: Seq<Noun<'a>>, n: int) -> Seq<Conversation<'a>>
    decreases n,
{
    if n <= 0 {
        Seq::empty()
    } else {
        flat_conversations(nouns, n - 1) + nouns[n - 1].spec_conversations()
    }
}

/// The line handles of a prefix of a conversation list, flattened in order.
pub open spec fn flat_lines<'a>(convs: Seq<Conversation<'a>>, n: int) -> Seq<Line<'a>>
    decreases n,
{
    if n <= 0 {
        Seq::empty()
    } else {
        flat_lines(convs, n - 1) + convs[n - 1].spec_lines()
    }
}

impl Book {
    /// The room handles of this book, in table order.
    pub open spec fn spec_rooms<'a>(&'a self) -> Seq<Room<'a>> {
        Seq::new(self.rooms@.len(), |i: int| Room { parent: self, idx: i as usize })
    }

    /// The verb handles of this book, in table order.
    pub open spec fn spec_verbs<'a>(&'a self) -> Seq<Verb<'a>> {
        Seq::new(self.verbs@.len(), |i: int| Verb { parent: self, idx: i as usize })
    }

    /// The talker handles of this book, in table order.
    pub open spec fn spec_talkers<'a>(&'a self) -> Seq<Talker<'a>> {
        Seq::new(self.talkers@.len(), |i: int| Talker { parent: self, idx: i as usize })
    }

    /// The role handles of this book, in table order.
    pub open spec fn spec_roles<'a>(&'a self) -> Seq<Role<'a>> {
        Seq::new(self.roles@.len(), |i: int| Role { parent: self, idx: i as usize })
    }

    /// The noun handles of the first `n` rooms, flattened in order.
    pub open spec fn spec_flat_nouns<'a>(&'a self, n: int) -> Seq<Noun<'a>>
        decreases n,
    {
        if n <= 0 {
            Seq::empty()
        } else {
            self.spec_flat_nouns(n - 1) + (Room { parent: self, idx: (n - 1) as usize }).spec_nouns()
        }
    }

    /// The condition handles of the first `n` rooms, flattened in order.
    pub open spec fn spec_flat_conditions<'a>(&'a self, n: int) -> Seq<Condition<'a>>
        decreases n,
    {
        if n <= 0 {
            Seq::empty()
        } else {
            self.spec_flat_conditions(n - 1) + (Room {
                parent: self,
                idx: (n - 1) as usize,
            }).spec_conditions()
        }
    }

    /// All rooms, in ascending raw-identifier order.
    pub fn rooms(&self) -> (r: Vec<Room<'_>>)
        requires
            self.wf(),
        ensures
            r@ == self.spec_rooms(),
            forall|i: int| 0 <= i < r@.len() ==> (#[trigger] r@[i]).wf(),
            forall|i: int, j: int| 0 <= i < j < r@.len() ==> r@[i].key() < r@[j].key(),
    {
        let mut out: Vec<Room<'_>> = Vec::new();
        let mut i: usize = 0;
        while i < self.rooms.len()
            invariant
                self.wf(),
                i <= self.rooms@.len(),
                out@.len() == i,
                forall|k: int| 0 <= k < i ==> out@[k] == self.spec_rooms()[k],
            decreases self.rooms@.len() - i,
        {
            out.push(Room { parent: self, idx: i });
            i = i + 1;
        }
        proof {
            assert(out@ =~= self.spec_rooms());
        }
        out
    }

    /// All verbs, in ascending raw-identifier order.
    pub fn verbs(&self) -> (r: Vec<Verb<'_>>)
        requires
            self.wf(),
        ensures
            r@ == self.spec_verbs(),
            forall|i: int| 0 <= i < r@.len() ==> (#[trigger] r@[i]).wf(),
            forall|i: int, j: int| 0 <= i < j < r@.len() ==> r@[i].key() < r@[j].key(),
    {
        let mut out: Vec<Verb<'_>> = Vec::new();
        let mut i: usize = 0;
        while i < self.verbs.len()
            invariant
                self.wf(),
                i <= self.verbs@.len(),
                out@.len() == i,
                forall|k: int| 0 <= k < i ==> out@[k] == self.spec_verbs()[k],
            decreases self.verbs@.len() - i,
        {
            out.push(Verb { parent: self, idx: i });
            i = i + 1;
        }
        proof {
            assert(out@ =~= self.spec_verbs());
        }
        out
    }

    /// All talkers, in ascending raw-identifier order.
    pub fn talkers(&self) -> (r: Vec<Talker<'_>>)
        requires
            self.wf(),
        ensures
            r@ == self.spec_talkers(),
            forall|i: int| 0 <= i < r@.len() ==> (#[trigger] r@[i]).wf(),
            forall|i: int, j: int| 0 <= i < j < r@.len() ==> r@[i].key() < r@[j].key(),
    {
        let mut out: Vec<Talker<'_>> = Vec::new();
        let mut i: usize = 0;
        while i < self.talkers.len()
            invariant
                self.wf(),
                i <= self.talkers@.len(),
                out@.len() == i,
                forall|k: int| 0 <= k < i ==> out@[k] == self.spec_talkers()[k],
            decreases self.talkers@.len() - i,
        {
            out.push(Talker { parent: self, idx: i });
            i = i + 1;
        }
        proof {
            assert(out@ =~= self.spec_talkers());
        }
        out
    }

    /// All roles, in ascending raw-identifier order.
    pub fn roles(&self) -> (r: Vec<Role<'_>>)
        requires
            self.wf(),
        ensures
            r@ == self.spec_roles(),
            forall|i: int| 0 <= i < r@.len() ==> (#[trigger] r@[i]).wf(),
            forall|i: int, j: int|
                0 <= i < j < r@.len() ==> crate::book::str_lt(r@[i].key_view(), r@[j].key_view()),
    {
        let mut out: Vec<Role<'_>> = Vec::new();
        let mut i: usize = 0;
        while i < self.roles.len()
            invariant
                self.wf(),
                i <= self.roles@.len(),
                out@.len() == i,
                forall|k: int| 0 <= k < i ==> out@[k] == self.spec_roles()[k],
            decreases self.roles@.len() - i,
        {
            out.push(Role { parent: self, idx: i });
            i = i + 1;
        }
        proof {
            assert(out@ =~= self.spec_roles());
        }
        out
    }

    /// All nouns of all rooms, grouped by room in ascending room order.
    pub fn nouns(&self) -> (r: Vec<Noun<'_>>)
        requires
            self.wf(),
        ensures
            r@ == self.spec_flat_nouns(self.rooms@.len() as int),
            forall|i: int|
                0 <= i < r@.len() ==> (#[trigger] r@[i]).wf() && r@[i].spec_book() == self,
    {
        let rooms_v = self.rooms();
        let mut out: Vec<Noun<'_>> = Vec::new();
        let mut i: usize = 0;
        while i < rooms_v.len()
            invariant
                self.wf(),
                rooms_v@ == self.spec_rooms(),
                i <= rooms_v@.len(),
                out@ == self.spec_flat_nouns(i as int),
                forall|k: int|
                    0 <= k < out@.len() ==> (#[trigger] out@[k]).wf() && out@[k].spec_book()
                        == self,
            decreases rooms_v@.len() - i,
        {
            let room = rooms_v[i];
            let mut chunk = room.nouns();
            out.append(&mut chunk);
            proof {
                assert(out@ =~= self.spec_flat_nouns(i as int + 1));
            }
            i = i + 1;
        }
        out
    }

    /// All conditions of all rooms, grouped by room in ascending room order.
    pub fn conditions(&self) -> (r: Vec<Condition<'_>>)
        requires
            self.wf(),
        ensures
            r@ == self.spec_flat_conditions(self.rooms@.len() as int),
            forall|i: int|
                0 <= i < r@.len() ==> (#[trigger] r@[i]).wf() && r@[i].parent.parent == self,
    {
        let rooms_v = self.rooms();
        let mut out: Vec<Condition<'_>> = Vec::new();
        let mut i: usize = 0;
        while i < rooms_v.len()
            invariant
                self.wf(),
                rooms_v@ == self.spec_rooms(),
                i <= rooms_v@.len(),
                out@ == self.spec_flat_conditions(i as int),
                forall|k: int|
                    0 <= k < out@.len() ==> (#[trigger] out@[k]).wf() && out@[k].parent.parent
                        == self,
            decreases rooms_v@.len() - i,
        {
            let room = rooms_v[i];
            let mut chunk = room.conditions();
            out.append(&mut chunk);
            proof {
                assert(out@ =~= self.spec_flat_conditions(i as int + 1));
            }
            i = i + 1;
        }
        out
    }

    /// All conversations of all nouns of all rooms, grouped in order.
    pub fn conversations(&self) -> (r: Vec<Conversation<'_>>)
        requires
            self.wf(),
        ensures
            ({
                let nouns = self.spec_flat_nouns(self.rooms@.len() as int);
                r@ == flat_conversations(nouns, nouns.len() as int)
            }),
            forall|i: int|
                0 <= i < r@.len() ==> (#[trigger] r@[i]).wf() && r@[i].spec_book() == self,
    {
        let nouns_v = self.nouns();
        let ghost nouns_s = self.spec_flat_nouns(self.rooms@.len() as int);
        let mut out: Vec<Conversation<'_>> = Vec::new();
        let mut i: usize = 0;
        while i < nouns_v.len()
            invariant
                self.wf(),
                nouns_v@ == nouns_s,
                forall|k: int|
                    0 <= k < nouns_v@.len() ==> (#[trigger] nouns_v@[k]).wf()
                        && nouns_v@[k].spec_book() == self,
                i <= nouns_v@.len(),
                out@ == flat_conversations(nouns_s, i as int),
                forall|k: int|
                    0 <= k < out@.len() ==> (#[trigger] out@[k]).wf() && out@[k].spec_book()
                        == self,
            decreases nouns_v@.len() - i,
        {
            let noun = nouns_v[i];
            let mut chunk = noun.conversations();
            out.append(&mut chunk);
            proof {
                assert(out@ =~= flat_conversations(nouns_s, i as int + 1));
            }
            i = i + 1;
        }
        out
    }

    /// All lines of all conversations, grouped in order.
    pub fn lines(&self) -> (r: Vec<Line<'_>>)
        requires
            self.wf(),
        ensures
            ({
                let nouns = self.spec_flat_nouns(self.rooms@.len() as int);
                let convs = flat_conversations(nouns, nouns.len() as int);
                r@ == flat_lines(convs, convs.len() as int)
            }),
            forall|i: int|
                0 <= i < r@.len() ==> (#[trigger] r@[i]).wf() && r@[i].spec_book() == self,
    {
        let convs_v = self.conversations();
        let ghost nouns_s = self.spec_flat_nouns(self.rooms@.len() as int);
        let ghost convs_s = flat_conversations(nouns_s, nouns_s.len() as int);
        let mut out: Vec<Line<'_>> = Vec::new();
        let mut i: usize = 0;
        while i < convs_v.len()
            invariant
                self.wf(),
                convs_v@ == convs_s,
                forall|k: int|
                    0 <= k < convs_v@.len() ==> (#[trigger] convs_v@[k]).wf()
                        && convs_v@[k].spec_book() == self,
                i <= convs_v@.len(),
                out@ == flat_lines(convs_s, i as int),
                forall|k: int|
                    0 <= k < out@.len() ==> (#[trigger] out@[k]).wf() && out@[k].spec_book()
                        == self,
            decreases convs_v@.len() - i,
        {
            let conv = convs_v[i];
            let mut chunk = conv.lines();
            out.append(&mut chunk);
            proof {
                assert(out@ =~= flat_lines(convs_s, i as int + 1));
            }
            i = i + 1;
        }
        out
    }

    /// The table position of a verb number, when present.
    pub(crate) fn find_verb(&self, v: u8) -> (r: Option<usize>)
        ensures
            r is Some <==> self.has_verb(v),
            match r {
                Some(i) => i < self.verbs@.len() && self.verbs@[i as int].0 == v,
                None => true,
            },
    {
        let mut i: usize = 0;
        while i < self.verbs.len()
            invariant
                i <= self.verbs@.len(),
                forall|k: int| 0 <= k < i ==> self.verbs@[k].0 != v,
            decreases self.verbs@.len() - i,
        {
            if self.verbs[i].0 == v {
                return Some(i);
            }
            i = i + 1;
        }
        None
    }

    /// The table position of a talker number, when present.
    pub(crate) fn find_talker(&self, t: u8) -> (r: Option<usize>)
        ensures
            r is Some <==> self.has_talker(t),
            match r {
                Some(i) => i < self.talkers@.len() && self.talkers@[i as int].0 == t,
                None => true,
            },
    {
        let mut i: usize = 0;
        while i < self.talkers.len()
            invariant
                i <= self.talkers@.len(),
                forall|k: int| 0 <= k < i ==> self.talkers@[k].0 != t,
            decreases self.talkers@.len() - i,
        {
            if self.talkers[i].0 == t {
                return Some(i);
            }
            i = i + 1;
        }
        None
    }

    /// The table position of a role identifier, when present.
    pub(crate) fn find_role(&self, id: &String) -> (r: Option<usize>)
        ensures
            r is Some <==> self.has_role(id@),
            match r {
                Some(i) => i < self.roles@.len() && self.roles@[i as int].0@ == id@,
                None => true,
            },
    {
        let mut i: usize = 0;
        while i < self.roles.len()
            invariant
                i <= self.roles@.len(),
                forall|k: int| 0 <= k < i ==> self.roles@[k].0@ != id@,
            decreases self.roles@.len() - i,
        {
            if self.roles[i].0 == *id {
                return Some(i);
            }
            i = i + 1;
        }
        None
    }

    /// Looks a room up by identifier; `None` exactly when it is absent.
    pub fn get_room(&self, id: RoomId) -> (r: Option<Room<'_>>)
        requires
            self.wf(),
        ensures
            r is Some <==> self.has_room(id.0),
            match r {
                Some(room) => room.wf() && room.parent == self && room.key() == id.0 && room.entry()
                    == self.spec_room(id.0),
                None => true,
            },
    {
        let mut i: usize = 0;
        while i < self.rooms.len()
            invariant
                self.wf(),
                i <= self.rooms@.len(),
                forall|k: int| 0 <= k < i ==> self.rooms@[k].0 != id.0,
            decreases self.rooms@.len() - i,
        {
            if self.rooms[i].0 == id.0 {
                let room = Room { parent: self, idx: i };
                proof {
                    lemma_room_resolves(room);
                }
                return Some(room);
            }
            i = i + 1;
        }
        None
    }

    /// Looks a verb up by identifier; `None` exactly when it is absent.
    pub fn get_verb(&self, id: VerbId) -> (r: Option<Verb<'_>>)
        requires
            self.wf(),
        ensures
            r is Some <==> self.has_verb(id.0),
            match r {
                Some(v) => v.wf() && v.parent == self && v.key() == id.0 && v.entry()
                    == self.spec_verb(id.0),
                None => true,
            },
    {
        match self.find_verb(id.0) {
            Some(i) => {
                let v = Verb { parent: self, idx: i };
                proof {
                    lemma_verb_resolves(v);
                }
                Some(v)
            },
            None => None,
        }
    }

    /// Looks a talker up by identifier; `None` exactly when it is absent.
    pub fn get_talker(&self, id: TalkerId) -> (r: Option<Talker<'_>>)
        requires
            self.wf(),
        ensures
            r is Some <==> self.has_talker(id.0),
            match r {
                Some(t) => t.wf() && t.parent == self && t.key() == id.0 && t.entry()
                    == self.spec_talker(id.0),
                None => true,
            },
    {
        match self.find_talker(id.0) {
            Some(i) => {
                let t = Talker { parent: self, idx: i };
                proof {
                    lemma_talker_resolves(t);
                }
                Some(t)
            },
            None => None,
        }
    }

    /// Looks a role up by identifier; `None` exactly when it is absent.
    pub fn get_role(&self, id: &RoleId) -> (r: Option<Role<'_>>)
        requires
            self.wf(),
        ensures
            r is Some <==> self.has_role(id.0@),
            match r {
                Some(role) => role.wf() && role.parent == self && role.key_view() == id.0@
                    && role.entry() == self.spec_role(id.0@),
                None => true,
            },
    {
        match self.find_role(&id.0) {
            Some(i) => {
                let role = Role { parent: self, idx: i };
                proof {
                    lemma_role_resolves(role);
                }
                Some(role)
            },
            None => None,
        }
    }

    /// Resolves a composite condition identifier; `None` exactly when the
    /// room or the condition is absent.
    pub fn get_condition(&self, id: ConditionId) -> (r: Option<Condition<'_>>)
        requires
            self.wf(),
        ensures
            r is Some <==> self.has_condition(id.0.0, id.1),
            match r {
                Some(c) => c.wf() && c.parent.parent == self && c.parent.key() == id.0.0 && c.key()
                    == id.1 && c.entry() == self.spec_condition(id.0.0, id.1),
                None => true,
            },
    {
        let room = match self.get_room(id.0) {
            None => {
                return None;
            },
            Some(room) => room,
        };
        match room.get_condition_inner(id.1) {
            None => None,
            Some(c) => {
                proof {
                    lemma_condition_resolves(c);
                }
                Some(c)
            },
        }
    }

    /// Resolves a composite noun identifier; `None` exactly when the room or
    /// the noun is absent.
    pub fn get_noun(&self, id: NounId) -> (r: Option<Noun<'_>>)
        requires
            self.wf(),
        ensures
            r is Some <==> self.has_noun(id.0.0, id.1),
            match r {
                Some(n) => n.wf() && n.spec_book() == self && n.parent.key() == id.0.0 && n.key()
                    == id.1 && n.entry() == self.spec_noun(id.0.0, id.1),
                None => true,
            },
    {
        let room = match self.get_room(id.0) {
            None => {
                return None;
            },
            Some(room) => room,
        };
        match room.get_noun_inner(id.1) {
            None => None,
            Some(n) => {
                proof {
                    lemma_noun_resolves(n);
                }
                Some(n)
            },
        }
    }

    /// Resolves a composite conversation identifier; `None` exactly when any
    /// level of it is absent.
    pub fn get_conversation(&self, id: ConversationId) -> (r: Option<Conversation<'_>>)
        requires
            self.wf(),
        ensures
            r is Some <==> self.has_conversation(id.0.0.0, id.0.1, id.1),
            match r {
                Some(c) => c.wf() && c.spec_book() == self && c.parent.parent.key() == id.0.0.0
                    && c.parent.key() == id.0.1 && c.key() == id.1 && c.entry()
                    == self.spec_conversation(id.0.0.0, id.0.1, id.1),
                None => true,
            },
    {
        let noun = match self.get_noun(id.0) {
            None => {
                return None;
            },
            Some(noun) => noun,
        };
        match noun.get_conversation_inner(id.1) {
            None => None,
            Some(c) => {
                proof {
                    lemma_conversation_resolves(c);
                }
                Some(c)
            },
        }
    }

    /// Resolves a composite line identifier; `None` exactly when any level of
    /// it is absent.
    pub fn get_line(&self, id: LineId) -> (r: Option<Line<'_>>)
        requires
            self.wf(),
        ensures
            r is Some <==> self.has_line(id.0.0.0.0, id.0.0.1, id.0.1, id.1),
            match r {
                Some(l) => l.wf() && l.spec_book() == self && l.parent.parent.parent.key()
                    == id.0.0.0.0 && l.parent.parent.key() == id.0.0.1 && l.parent.key() == id.0.1
                    && l.key() == id.1 && l.entry() == self.spec_line(
                    id.0.0.0.0,
                    id.0.0.1,
                    id.0.1,
                    id.1,
                ),
                None => true,
            },
    {
        let conv = match self.get_conversation(id.0) {
            None => {
                return None;
            },
            Some(conv) => conv,
        };
        match conv.get_line_inner(id.1) {
            None => None,
            Some(l) => {
                proof {
                    lemma_line_resolves(l);
                }
                Some(l)
            },
        }
    }
}

} // verus!
