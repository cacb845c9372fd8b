use resbook::book::{Book, ConversationKey, NounId, RoleId, RoomId, TalkerId, VerbId};
use resbook::builder::BookBuilder;
use resbook::error::BuildError;

/// A small book: two rooms, nouns with conversations, linked talkers/roles.
fn sample_book() -> Book {
    let mut b = BookBuilder::new();
    b.add_role("ml".to_string(), "Merchant".to_string(), "M".to_string())
        .unwrap();
    b.add_role("gd".to_string(), "Guard".to_string(), "G".to_string())
        .unwrap();
    b.add_talker(1, "ml".to_string()).unwrap();
    b.add_talker(2, "gd".to_string()).unwrap();
    b.add_verb(3, "Look".to_string()).unwrap();
    b.add_verb(5, "Talk".to_string()).unwrap();
    // Inserted out of order on purpose: iteration must still be ascending.
    b.add_room(300, Some("Market".to_string())).unwrap();
    b.add_room(100, None).unwrap();
    b.add_condition(300, 2, Some("stall open".to_string())).unwrap();
    b.add_noun(300, 9, Some("stall".to_string())).unwrap();
    b.add_noun(300, 4, None).unwrap();
    b.add_conversation(300, 4, ConversationKey::new(5, 0)).unwrap();
    b.add_conversation(300, 4, ConversationKey::new(0, 0)).unwrap();
    b.add_conversation(300, 4, ConversationKey::new(3, 2)).unwrap();
    b.add_line(300, 4, ConversationKey::new(3, 2), 7, "Hello".to_string(), 1)
        .unwrap();
    b.add_line(300, 4, ConversationKey::new(3, 2), 2, "Hmm".to_string(), 2)
        .unwrap();
    b.add_line(300, 4, ConversationKey::new(3, 2), 4, "Yes".to_string(), 1)
        .unwrap();
    b.add_noun(100, 1, None).unwrap();
    b.add_conversation(100, 1, ConversationKey::new(3, 9)).unwrap();
    b.build().unwrap()
}

#[test]
fn rooms_iterate_in_ascending_order() {
    let book = sample_book();
    let rooms: Vec<u16> = book.rooms().iter().map(|r| r.id().0).collect();
    assert_eq!(rooms, vec![100, 300]);
}

#[test]
fn nouns_conversations_lines_iterate_in_ascending_order() {
    let book = sample_book();
    let room = book.get_room(RoomId(300)).unwrap();
    let noun_ids: Vec<u8> = room.nouns().iter().map(|n| n.id().1).collect();
    assert_eq!(noun_ids, vec![4, 9]);
    let noun = book.get_noun(NounId(RoomId(300), 4)).unwrap();
    let keys: Vec<(u8, u8)> = noun
        .conversations()
        .iter()
        .map(|c| (c.id().1.verb(), c.id().1.condition()))
        .collect();
    assert_eq!(keys, vec![(0, 0), (3, 2), (5, 0)]);
    let conv = noun
        .conversations()
        .into_iter()
        .find(|c| c.id().1 == ConversationKey::new(3, 2))
        .unwrap();
    let seqs: Vec<u8> = conv.lines().iter().map(|l| l.id().1).collect();
    assert_eq!(seqs, vec![2, 4, 7]);
    // Iteration is reproducible across repeated calls.
    let seqs_again: Vec<u8> = conv.lines().iter().map(|l| l.id().1).collect();
    assert_eq!(seqs, seqs_again);
}

#[test]
fn composite_identifiers_round_trip() {
    let book = sample_book();
    for room in book.rooms() {
        let again = book.get_room(room.id()).unwrap();
        assert_eq!(again.name(), room.name());
        for noun in room.nouns() {
            let n2 = book.get_noun(noun.id()).unwrap();
            assert_eq!(n2.desc(), noun.desc());
            for conv in noun.conversations() {
                let c2 = book.get_conversation(conv.id()).unwrap();
                assert_eq!(c2.id(), conv.id());
                assert_eq!(c2.lines().len(), conv.lines().len());
                for line in conv.lines() {
                    let l2 = book.get_line(line.id()).unwrap();
                    assert_eq!(l2.text(), line.text());
                    assert_eq!(l2.talker().id(), line.talker().id());
                }
            }
        }
    }
}

#[test]
fn conversation_key_zero_means_none() {
    let book = sample_book();
    let noun = book.get_noun(NounId(RoomId(300), 4)).unwrap();
    let convs = noun.conversations();
    let plain = &convs[0];
    assert_eq!(plain.id().1, ConversationKey::new(0, 0));
    assert!(plain.verb().is_none());
    assert!(plain.condition().is_none());
    let gated = &convs[1];
    assert_eq!(gated.id().1, ConversationKey::new(3, 2));
    assert_eq!(gated.verb().unwrap().name(), "Look");
    assert_eq!(gated.condition().unwrap().desc(), Some("stall open"));
    let verb_only = &convs[2];
    assert!(verb_only.verb().is_some());
    assert!(verb_only.condition().is_none());
}

#[test]
fn absent_condition_reports_cleared_not_fault() {
    // Room 100's conversation names condition 9, which has no entry in the
    // room's table: an expected absent case, never a fault.
    let book = sample_book();
    let noun = book.get_noun(NounId(RoomId(100), 1)).unwrap();
    let conv = &noun.conversations()[0];
    assert_eq!(conv.id().1, ConversationKey::new(3, 9));
    assert!(conv.condition().is_none());
    assert!(conv.verb().is_some());
}

#[test]
fn lines_resolve_talkers_and_roles() {
    let book = sample_book();
    let noun = book.get_noun(NounId(RoomId(300), 4)).unwrap();
    let conv = noun
        .conversations()
        .into_iter()
        .find(|c| c.id().1 == ConversationKey::new(3, 2))
        .unwrap();
    let lines = conv.lines();
    assert_eq!(lines[0].text(), "Hmm");
    assert_eq!(lines[0].talker().id(), TalkerId(2));
    assert_eq!(lines[0].role().name(), "Guard");
    assert_eq!(lines[1].role().short_name(), "M");
    assert_eq!(lines[2].conversation().id(), conv.id());
}

#[test]
fn room_without_name_uses_placeholder() {
    let book = sample_book();
    let room = book.get_room(RoomId(100)).unwrap();
    assert_eq!(room.name(), "*NO NAME*");
    assert_eq!(book.get_room(RoomId(300)).unwrap().name(), "Market");
}

#[test]
fn global_lookups_and_flat_iteration() {
    let book = sample_book();
    assert_eq!(book.get_verb(VerbId(3)).unwrap().name(), "Look");
    assert!(book.get_verb(VerbId(4)).is_none());
    assert_eq!(
        book.get_role(&RoleId("gd".to_string())).unwrap().name(),
        "Guard"
    );
    assert!(book.get_role(&RoleId("xx".to_string())).is_none());
    assert_eq!(book.get_talker(TalkerId(1)).unwrap().role().id(), RoleId("ml".to_string()));
    assert!(book.get_talker(TalkerId(9)).is_none());
    assert_eq!(book.roles().len(), 2);
    assert_eq!(book.talkers().len(), 2);
    assert_eq!(book.verbs().len(), 2);
    assert_eq!(book.nouns().len(), 3);
    assert_eq!(book.conversations().len(), 4);
    assert_eq!(book.lines().len(), 3);
    assert_eq!(book.conditions().len(), 1);
}

#[test]
fn duplicate_keys_are_rejected() {
    let mut b = BookBuilder::new();
    b.add_room(1, None).unwrap();
    assert!(matches!(b.add_room(1, None), Err(BuildError::DuplicateKey)));
    b.add_noun(1, 2, None).unwrap();
    assert!(matches!(
        b.add_noun(1, 2, None),
        Err(BuildError::DuplicateKey)
    ));
    b.add_conversation(1, 2, ConversationKey::new(0, 0)).unwrap();
    assert!(matches!(
        b.add_conversation(1, 2, ConversationKey::new(0, 0)),
        Err(BuildError::DuplicateKey)
    ));
    b.add_role("r".to_string(), "R".to_string(), "R".to_string())
        .unwrap();
    assert!(matches!(
        b.add_role("r".to_string(), "x".to_string(), "y".to_string()),
        Err(BuildError::DuplicateKey)
    ));
}

#[test]
fn missing_parents_are_rejected() {
    let mut b = BookBuilder::new();
    assert!(matches!(
        b.add_noun(1, 2, None),
        Err(BuildError::MissingParent)
    ));
    assert!(matches!(
        b.add_condition(1, 2, None),
        Err(BuildError::MissingParent)
    ));
    b.add_room(1, None).unwrap();
    assert!(matches!(
        b.add_conversation(1, 2, ConversationKey::new(0, 0)),
        Err(BuildError::MissingParent)
    ));
    b.add_noun(1, 2, None).unwrap();
    assert!(matches!(
        b.add_line(1, 2, ConversationKey::new(0, 0), 1, "t".to_string(), 1),
        Err(BuildError::MissingParent)
    ));
}

#[test]
fn build_rejects_dangling_references() {
    // A talker whose role is missing.
    let mut b = BookBuilder::new();
    b.add_talker(1, "nobody".to_string()).unwrap();
    assert!(matches!(b.build(), Err(BuildError::DanglingRole)));

    // A conversation whose nonzero verb is missing.
    let mut b = BookBuilder::new();
    b.add_room(1, None).unwrap();
    b.add_noun(1, 1, None).unwrap();
    b.add_conversation(1, 1, ConversationKey::new(4, 0)).unwrap();
    assert!(matches!(b.build(), Err(BuildError::DanglingVerb)));

    // A line whose talker is missing.
    let mut b = BookBuilder::new();
    b.add_room(1, None).unwrap();
    b.add_noun(1, 1, None).unwrap();
    b.add_conversation(1, 1, ConversationKey::new(0, 0)).unwrap();
    b.add_line(1, 1, ConversationKey::new(0, 0), 1, "hi".to_string(), 3)
        .unwrap();
    assert!(matches!(b.build(), Err(BuildError::DanglingTalker)));
}

#[test]
fn empty_book_builds() {
    let book = BookBuilder::new().build().unwrap();
    assert_eq!(book.rooms().len(), 0);
    assert_eq!(book.lines().len(), 0);
}
