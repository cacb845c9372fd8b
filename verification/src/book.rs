//! The book: the in-memory, read-only graph of narrative content — rooms,
//! nouns, conversations, dialogue lines, conditions, verbs, talkers and
//! roles — reconstructed from decoded message resources.
//!
//! Raw identifiers are small fixed-width values taken verbatim from the
//! archive (a room is 16-bit; noun, verb, condition, sequence and talker are
//! 8-bit; a role is a short string). Public identifiers are composite: they
//! combine an entity's raw identifier with all ancestor raw identifiers, so
//! any public identifier resolves back to its entity without context.
//!
//! Entry tables are keyed by raw identifier in ascending order — iteration
//! order is key order, stable across runs — and are populated once, by the
//! builder, then never mutated.

use vstd::prelude::*;
use vstd::utf8::encode_utf8;

verus! {

// Public composite identifiers.
/// Identifies a room: its raw 16-bit room number.
#[derive(Debug, Clone, Copy, PartialEq, Eq, Hash, Structural)]
pub struct RoomId(pub u16);

/// Identifies a verb globally: its raw 8-bit verb number.
#[derive(Debug, Clone, Copy, PartialEq, Eq, Hash, Structural)]
pub struct VerbId(pub u8);

/// Identifies a talker globally: its raw 8-bit talker number.
#[derive(Debug, Clone, Copy, PartialEq, Eq, Hash, Structural)]
pub struct TalkerId(pub u8);

/// Identifies a role globally: its raw string identifier.
#[derive(Debug, Clone, PartialEq, Eq, Hash)]
pub struct RoleId(pub String);

/// Identifies a noun within its room.
#[derive(Debug, Clone, Copy, PartialEq, Eq, Hash, Structural)]
pub struct NounId(pub RoomId, pub u8);

/// Identifies a condition within its room.
#[derive(Debug, Clone, Copy, PartialEq, Eq, Hash, Structural)]
pub struct ConditionId(pub RoomId, pub u8);

/// The (verb, condition) pair disambiguating conversation branches under one
/// noun. The value 0 is a legacy sentinel in either slot: verb 0 means "no
/// specific verb required", condition 0 means "no condition gating".
#[derive(Debug, Clone, Copy, PartialEq, Eq, Hash, Structural)]
pub struct ConversationKey {
    pub verb: u8,
    pub condition: u8,
}

impl ConversationKey {
    pub fn new(verb: u8, condition: u8) -> (r: ConversationKey)
        ensures
            r == (ConversationKey { verb, condition }),
    {
        ConversationKey { verb, condition }
    }

    /// The raw verb slot (0 means "no specific verb").
    pub fn verb(&self) -> (r: u8)
        ensures
            r == self.verb,
    {
        self.verb
    }

    /// The raw condition slot (0 means "no condition gating").
    pub fn condition(&self) -> (r: u8)
        ensures
            r == self.condition,
    {
        self.condition
    }
}

/// Identifies a conversation: its noun plus its conversation key.
#[derive(Debug, Clone, Copy, PartialEq, Eq, Hash, Structural)]
pub struct ConversationId(pub NounId, pub ConversationKey);

/// Identifies a dialogue line: its conversation plus its raw sequence number.
#[derive(Debug, Clone, Copy, PartialEq, Eq, Hash, Structural)]
pub struct LineId(pub ConversationId, pub u8);

// Entries: the data stored in the book's tables, forming a tree navigated
// through the handle types.
/// A role: the speaking character it names.
#[derive(Debug, Clone)]
pub struct RoleEntry {
    pub name: String,
    pub short_name: String,
}

/// A talker: the role it speaks as.
#[derive(Debug, Clone)]
pub struct TalkerEntry {
    pub role_id: String,
}

/// A verb: its display name.
#[derive(Debug, Clone)]
pub struct VerbEntry {
    pub name: String,
}

/// A condition: its description, present only when one was supplied during
/// ingestion.
#[derive(Debug, Clone)]
pub struct ConditionEntry {
    pub desc: Option<String>,
}

/// A dialogue line: its text and the talker speaking it.
#[derive(Debug, Clone)]
pub struct LineEntry {
    pub text: String,
    pub talker: u8,
}

/// A conversation: its lines, keyed by raw sequence number in ascending
/// order, which defines line order within the conversation.
#[derive(Debug, Clone)]
pub struct ConversationEntry {
    pub lines: Vec<(u8, LineEntry)>,
}

/// A noun: its description and its conversations, keyed by conversation key
/// in ascending order.
#[derive(Debug, Clone)]
pub struct NounEntry {
    pub desc: Option<String>,
    pub conversations: Vec<(ConversationKey, ConversationEntry)>,
}

/// A room: its display name and its condition and noun tables, each keyed in
/// ascending order.
#[derive(Debug, Clone)]
pub struct RoomEntry {
    pub name: Option<String>,
    pub conditions: Vec<(u8, ConditionEntry)>,
    pub nouns: Vec<(u8, NounEntry)>,
}

// Key ordering.
/// Strictly ascending 8-bit keys.
pub open spec fn sorted_u8<T>(s: Seq<(u8, T)>) -> bool {
    forall|i: int, j: int| 0 <= i < j < s.len() ==> s[i].0 < s[j].0
}

/// Strictly ascending 16-bit keys.
pub open spec fn sorted_u16<T>(s: Seq<(u16, T)>) -> bool {
    forall|i: int, j: int| 0 <= i < j < s.len() ==> s[i].0 < s[j].0
}

/// Conversation keys order by verb, then by condition.
pub open spec fn key_lt(a: ConversationKey, b: ConversationKey) -> bool {
    a.verb < b.verb || (a.verb == b.verb && a.condition < b.condition)
}

/// Strictly ascending conversation keys.
pub open spec fn sorted_key<T>(s: Seq<(ConversationKey, T)>) -> bool {
    forall|i: int, j: int| 0 <= i < j < s.len() ==> key_lt(s[i].0, s[j].0)
}

/// Lexicographic order on byte sequences.
pub open spec fn bytes_lt(a: Seq<u8>, b: Seq<u8>) -> bool
    decreases a.len(),
{
    if b.len() == 0 {
        false
    } else if a.len() == 0 {
        true
    } else if a[0] < b[0] {
        true
    } else if a[0] > b[0] {
        false
    } else {
        bytes_lt(a.drop_first(), b.drop_first())
    }
}

/// Role identifiers order by their UTF-8 encoding, byte-lexicographically.
pub open spec fn str_lt(a: Seq<char>, b: Seq<char>) -> bool {
    bytes_lt(encode_utf8(a), encode_utf8(b))
}

/// Strictly ascending role keys.
pub open spec fn sorted_roles<T>(s: Seq<(String, T)>) -> bool {
    forall|i: int, j: int| 0 <= i < j < s.len() ==> str_lt(s[i].0@, s[j].0@)
}

/// No byte sequence precedes itself.
pub proof fn lemma_bytes_lt_irrefl(a: Seq<u8>)
    ensures
        !bytes_lt(a, a),
    decreases a.len(),
{
    if a.len() > 0 {
        lemma_bytes_lt_irrefl(a.drop_first());
    }
}

/// Byte order is total: incomparable sequences are equal.
pub proof fn lemma_bytes_lt_total(a: Seq<u8>, b: Seq<u8>)
    requires
        !bytes_lt(a, b),
        !bytes_lt(b, a),
    ensures
        a == b,
    decreases a.len(),
{
    if b.len() == 0 {
        if a.len() > 0 {
            assert(bytes_lt(b, a));
        }
        assert(a =~= b);
    } else if a.len() == 0 {
        assert(bytes_lt(a, b));
    } else {
        lemma_bytes_lt_total(a.drop_first(), b.drop_first());
        assert forall|i: int| 0 <= i < a.len() implies a[i] == b[i] by {
            if i > 0 {
                assert(a[i] == a.drop_first()[i - 1]);
                assert(b[i] == b.drop_first()[i - 1]);
            }
        }
        assert(a =~= b);
    }
}

/// Byte order is transitive.
pub proof fn lemma_bytes_lt_trans(a: Seq<u8>, b: Seq<u8>, c: Seq<u8>)
    requires
        bytes_lt(a, b),
        bytes_lt(b, c),
    ensures
        bytes_lt(a, c),
    decreases a.len(),
{
    if a.len() > 0 && b.len() > 0 && c.len() > 0 {
        if a[0] == b[0] && b[0] == c[0] {
            lemma_bytes_lt_trans(a.drop_first(), b.drop_first(), c.drop_first());
        }
    }
}

/// No role identifier precedes itself.
pub proof fn lemma_str_lt_irrefl(a: Seq<char>)
    ensures
        !str_lt(a, a),
{
    lemma_bytes_lt_irrefl(encode_utf8(a));
}

/// Role order is total: incomparable identifiers are equal.
pub proof fn lemma_str_lt_total(a: Seq<char>, b: Seq<char>)
    requires
        !str_lt(a, b),
        !str_lt(b, a),
    ensures
        a == b,
{
    lemma_bytes_lt_total(encode_utf8(a), encode_utf8(b));
    vstd::utf8::encode_utf8_decode_utf8(a);
    vstd::utf8::encode_utf8_decode_utf8(b);
}

/// Role order is transitive.
pub proof fn lemma_str_lt_trans(a: Seq<char>, b: Seq<char>, c: Seq<char>)
    requires
        str_lt(a, b),
        str_lt(b, c),
    ensures
        str_lt(a, c),
{
    lemma_bytes_lt_trans(encode_utf8(a), encode_utf8(b), encode_utf8(c));
}

// Structural order of the nested tables, independent of cross-references.
/// A conversation's lines are keyed in strictly ascending order.
pub open spec fn conv_sorted(c: ConversationEntry) -> bool {
    sorted_u8(c.lines@)
}

/// A noun's conversations are keyed in strictly ascending order, each itself
/// ordered.
pub open spec fn noun_sorted(n: NounEntry) -> bool {
    &&& sorted_key(n.conversations@)
    &&& forall|i: int|
        0 <= i < n.conversations@.len() ==> conv_sorted(#[trigger] n.conversations@[i].1)
}

/// A room's condition and noun tables are keyed in strictly ascending order,
/// each noun itself ordered.
pub open spec fn room_sorted(r: RoomEntry) -> bool {
    &&& sorted_u8(r.conditions@)
    &&& sorted_u8(r.nouns@)
    &&& forall|i: int| 0 <= i < r.nouns@.len() ==> noun_sorted(#[trigger] r.nouns@[i].1)
}

/// The fully decoded, navigable narrative-content graph. Immutable once
/// built; all entities are reached through non-owning navigation handles
/// borrowing the book.
pub struct Book {
    pub roles: Vec<(String, RoleEntry)>,
    pub talkers: Vec<(u8, TalkerEntry)>,
    pub verbs: Vec<(u8, VerbEntry)>,
    pub rooms: Vec<(u16, RoomEntry)>,
}

impl Book {
    /// Every table, at every nesting level, is keyed in strictly ascending
    /// order.
    pub open spec fn tables_sorted(&self) -> bool {
        &&& sorted_roles(self.roles@)
        &&& sorted_u8(self.talkers@)
        &&& sorted_u8(self.verbs@)
        &&& sorted_u16(self.rooms@)
        &&& forall|i: int| 0 <= i < self.rooms@.len() ==> room_sorted(#[trigger] self.rooms@[i].1)
    }

    /// Whether a talker number has an entry.
    pub open spec fn has_talker(&self, t: u8) -> bool {
        exists|i: int| 0 <= i < self.talkers@.len() && self.talkers@[i].0 == t
    }

    /// Whether a verb number has an entry.
    pub open spec fn has_verb(&self, v: u8) -> bool {
        exists|i: int| 0 <= i < self.verbs@.len() && self.verbs@[i].0 == v
    }

    /// Whether a role identifier has an entry.
    pub open spec fn has_role(&self, r: Seq<char>) -> bool {
        exists|i: int| 0 <= i < self.roles@.len() && self.roles@[i].0@ == r
    }

    /// Whether a room number has an entry.
    pub open spec fn has_room(&self, k: u16) -> bool {
        exists|i: int| 0 <= i < self.rooms@.len() && self.rooms@[i].0 == k
    }

    /// Every cross-reference resolves: each talker's role exists; each
    /// conversation key's nonzero verb exists; each line's talker exists.
    pub open spec fn links_ok(&self) -> bool {
        &&& forall|i: int|
            0 <= i < self.talkers@.len() ==> self.has_role(#[trigger] self.talkers@[i].1.role_id@)
        &&& forall|i: int, j: int, k: int|
            {
                &&& 0 <= i < self.rooms@.len()
                &&& 0 <= j < self.rooms@[i].1.nouns@.len()
                &&& 0 <= k < self.rooms@[i].1.nouns@[j].1.conversations@.len()
            } ==> {
                let key = (#[trigger] self.rooms@[i].1.nouns@[j].1.conversations@[k]).0;
                key.verb != 0 ==> self.has_verb(key.verb)
            }
        &&& forall|i: int, j: int, k: int, l: int|
            {
                &&& 0 <= i < self.rooms@.len()
                &&& 0 <= j < self.rooms@[i].1.nouns@.len()
                &&& 0 <= k < self.rooms@[i].1.nouns@[j].1.conversations@.len()
                &&& 0 <= l < self.rooms@[i].1.nouns@[j].1.conversations@[k].1.lines@.len()
            } ==> self.has_talker(
                (#[trigger] self.rooms@[i].1.nouns@[j].1.conversations@[k].1.lines@[l]).1.talker,
            )
    }

    /// A book is well formed when its tables are ordered and every
    /// cross-reference resolves. The builder establishes this; nothing
    /// mutates a book afterwards.
    pub open spec fn wf(&self) -> bool {
        self.tables_sorted() && self.links_ok()
    }

    /// The table position of a room number that is present.
    pub open spec fn room_index(&self, k: u16) -> int {
        choose|i: int| 0 <= i < self.rooms@.len() && self.rooms@[i].0 == k
    }

    /// The entry of a room number that is present.
    pub open spec fn spec_room(&self, k: u16) -> RoomEntry {
        self.rooms@[self.room_index(k)].1
    }

    /// Whether a room holds a noun under a raw noun number.
    pub open spec fn has_noun(&self, room: u16, noun: u8) -> bool {
        self.has_room(room) && exists|j: int|
            0 <= j < self.spec_room(room).nouns@.len() && self.spec_room(room).nouns@[j].0 == noun
    }

    /// The position of a noun within its room's table.
    pub open spec fn noun_index(&self, room: u16, noun: u8) -> int {
        choose|j: int|
            0 <= j < self.spec_room(room).nouns@.len() && self.spec_room(room).nouns@[j].0 == noun
    }

    /// The entry of a noun that is present.
    pub open spec fn spec_noun(&self, room: u16, noun: u8) -> NounEntry {
        self.spec_room(room).nouns@[self.noun_index(room, noun)].1
    }

    /// Whether a room holds a condition under a raw condition number.
    pub open spec fn has_condition(&self, room: u16, cond: u8) -> bool {
        self.has_room(room) && exists|j: int|
            0 <= j < self.spec_room(room).conditions@.len() && self.spec_room(
                room,
            ).conditions@[j].0 == cond
    }

    /// The position of a condition within its room's table.
    pub open spec fn condition_index(&self, room: u16, cond: u8) -> int {
        choose|j: int|
            0 <= j < self.spec_room(room).conditions@.len() && self.spec_room(
                room,
            ).conditions@[j].0 == cond
    }

    /// The entry of a condition that is present.
    pub open spec fn spec_condition(&self, room: u16, cond: u8) -> ConditionEntry {
        self.spec_room(room).conditions@[self.condition_index(room, cond)].1
    }

    /// Whether a noun holds a conversation under a conversation key.
    pub open spec fn has_conversation(&self, room: u16, noun: u8, key: ConversationKey) -> bool {
        self.has_noun(room, noun) && exists|k: int|
            0 <= k < self.spec_noun(room, noun).conversations@.len() && self.spec_noun(
                room,
                noun,
            ).conversations@[k].0 == key
    }

    /// The position of a conversation within its noun's table.
    pub open spec fn conversation_index(&self, room: u16, noun: u8, key: ConversationKey) -> int {
        choose|k: int|
            0 <= k < self.spec_noun(room, noun).conversations@.len() && self.spec_noun(
                room,
                noun,
            ).conversations@[k].0 == key
    }

    /// The entry of a conversation that is present.
    pub open spec fn spec_conversation(
        &self,
        room: u16,
        noun: u8,
        key: ConversationKey,
    ) -> ConversationEntry {
        self.spec_noun(room, noun).conversations@[self.conversation_index(room, noun, key)].1
    }

    /// Whether a conversation holds a line under a raw sequence number.
    pub open spec fn has_line(&self, room: u16, noun: u8, key: ConversationKey, seq_n: u8) -> bool {
        self.has_conversation(room, noun, key) && exists|l: int|
            0 <= l < self.spec_conversation(room, noun, key).lines@.len() && self.spec_conversation(
                room,
                noun,
                key,
            ).lines@[l].0 == seq_n
    }

    /// The position of a line within its conversation's table.
    pub open spec fn line_index(&self, room: u16, noun: u8, key: ConversationKey, seq_n: u8) -> int {
        choose|l: int|
            0 <= l < self.spec_conversation(room, noun, key).lines@.len() && self.spec_conversation(
                room,
                noun,
                key,
            ).lines@[l].0 == seq_n
    }

    /// The entry of a line that is present.
    pub open spec fn spec_line(
        &self,
        room: u16,
        noun: u8,
        key: ConversationKey,
        seq_n: u8,
    ) -> LineEntry {
        self.spec_conversation(room, noun, key).lines@[self.line_index(room, noun, key, seq_n)].1
    }

    /// The table position of a talker number that is present.
    pub open spec fn talker_index(&self, t: u8) -> int {
        choose|i: int| 0 <= i < self.talkers@.len() && self.talkers@[i].0 == t
    }

    /// The entry of a talker number that is present.
    pub open spec fn spec_talker(&self, t: u8) -> TalkerEntry {
        self.talkers@[self.talker_index(t)].1
    }

    /// The table position of a verb number that is present.
    pub open spec fn verb_index(&self, v: u8) -> int {
        choose|i: int| 0 <= i < self.verbs@.len() && self.verbs@[i].0 == v
    }

    /// The entry of a verb number that is present.
    pub open spec fn spec_verb(&self, v: u8) -> VerbEntry {
        self.verbs@[self.verb_index(v)].1
    }

    /// The table position of a role identifier that is present.
    pub open spec fn role_index(&self, r: Seq<char>) -> int {
        choose|i: int| 0 <= i < self.roles@.len() && self.roles@[i].0@ == r
    }

    /// The entry of a role identifier that is present.
    pub open spec fn spec_role(&self, r: Seq<char>) -> RoleEntry {
        self.roles@[self.role_index(r)].1
    }
}

/// Strictly ascending 8-bit keys are unique.
pub proof fn lemma_sorted_u8_unique<T>(s: Seq<(u8, T)>, i: int, j: int)
    requires
        sorted_u8(s),
        0 <= i < s.len(),
        0 <= j < s.len(),
        s[i].0 == s[j].0,
    ensures
        i == j,
{
    if i < j {
        assert(s[i].0 < s[j].0);
    }
    if j < i {
        assert(s[j].0 < s[i].0);
    }
}

/// Strictly ascending 16-bit keys are unique.
pub proof fn lemma_sorted_u16_unique<T>(s: Seq<(u16, T)>, i: int, j: int)
    requires
        sorted_u16(s),
        0 <= i < s.len(),
        0 <= j < s.len(),
        s[i].0 == s[j].0,
    ensures
        i == j,
{
    if i < j {
        assert(s[i].0 < s[j].0);
    }
    if j < i {
        assert(s[j].0 < s[i].0);
    }
}

/// Strictly ascending conversation keys are unique.
pub proof fn lemma_sorted_key_unique<T>(s: Seq<(ConversationKey, T)>, i: int, j: int)
    requires
        sorted_key(s),
        0 <= i < s.len(),
        0 <= j < s.len(),
        s[i].0 == s[j].0,
    ensures
        i == j,
{
    if i < j {
        assert(key_lt(s[i].0, s[j].0));
    }
    if j < i {
        assert(key_lt(s[j].0, s[i].0));
    }
}

/// Strictly ascending role keys are unique.
pub proof fn lemma_sorted_roles_unique<T>(s: Seq<(String, T)>, i: int, j: int)
    requires
        sorted_roles(s),
        0 <= i < s.len(),
        0 <= j < s.len(),
        s[i].0@ == s[j].0@,
    ensures
        i == j,
{
    if i < j {
        assert(str_lt(s[i].0@, s[j].0@));
        lemma_str_lt_irrefl(s[i].0@);
    }
    if j < i {
        assert(str_lt(s[j].0@, s[i].0@));
        lemma_str_lt_irrefl(s[i].0@);
    }
}

} // verus!
