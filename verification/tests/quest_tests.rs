use wenfox::quest::{cancel_quest, create_quest, create_quest_with, list_quests, Quest, QuestManager, QuestStatus};

fn quest(id: &str, name: &str) -> Quest {
    Quest::pending(id.to_string(), name.to_string(), 1_700_000_000)
}

#[test]
fn new_manager_is_empty() {
    let m = QuestManager::new();
    assert!(m.get_quests().is_empty());
}

#[test]
fn pending_quest_fields() {
    let q = quest("id-1", "download");
    assert_eq!(q.id, "id-1");
    assert_eq!(q.name, "download");
    assert_eq!(q.status, QuestStatus::Pending);
    assert_eq!(q.progress, 0);
    assert_eq!(q.created_at, 1_700_000_000);
}

#[test]
fn add_quest_appends_in_order() {
    let mut m = QuestManager::new();
    m.add_quest(quest("a", "first"));
    m.add_quest(quest("b", "second"));
    let all = m.get_quests();
    assert_eq!(all.len(), 2);
    assert_eq!(all[0].id, "a");
    assert_eq!(all[1].id, "b");
    assert_eq!(all[1].name, "second");
}

#[test]
fn get_quests_copies() {
    let mut m = QuestManager::new();
    m.add_quest(quest("a", "first"));
    let mut copy = m.get_quests();
    copy[0].name = "changed".to_string();
    assert_eq!(m.get_quests()[0].name, "first");
}

#[test]
fn cancel_quest_removes_and_marks_canceled() {
    let mut m = QuestManager::new();
    m.add_quest(quest("a", "first"));
    m.add_quest(quest("b", "second"));
    m.add_quest(quest("c", "third"));
    let canceled = m.cancel_quest("b").unwrap();
    assert_eq!(canceled.id, "b");
    assert_eq!(canceled.name, "second");
    assert_eq!(canceled.status, QuestStatus::Canceled);
    let rest = m.get_quests();
    assert_eq!(rest.len(), 2);
    assert_eq!(rest[0].id, "a");
    assert_eq!(rest[1].id, "c");
}

#[test]
fn cancel_quest_takes_first_of_duplicates() {
    let mut m = QuestManager::new();
    m.add_quest(quest("x", "one"));
    m.add_quest(quest("x", "two"));
    let first = m.cancel_quest("x").unwrap();
    assert_eq!(first.name, "one");
    let second = m.cancel_quest("x").unwrap();
    assert_eq!(second.name, "two");
    assert!(m.cancel_quest("x").is_none());
}

#[test]
fn cancel_unknown_quest_keeps_everything() {
    let mut m = QuestManager::new();
    m.add_quest(quest("a", "first"));
    assert!(m.cancel_quest("zzz").is_none());
    assert!(m.cancel_quest("").is_none());
    assert!(m.cancel_quest("A").is_none());
    assert_eq!(m.get_quests().len(), 1);
    assert_eq!(m.get_quests()[0].status, QuestStatus::Pending);
}

#[test]
fn cancel_after_add_restores_manager() {
    let mut m = QuestManager::new();
    m.add_quest(quest("a", "first"));
    m.add_quest(quest("new", "added"));
    let back = m.cancel_quest("new").unwrap();
    assert_eq!(back.name, "added");
    assert_eq!(back.status, QuestStatus::Canceled);
    let rest = m.get_quests();
    assert_eq!(rest.len(), 1);
    assert_eq!(rest[0].id, "a");
}

#[test]
fn create_quest_registers_pending_quest_with_uuid() {
    let mut m = QuestManager::new();
    let q = create_quest("下载文件".to_string(), &mut m).unwrap();
    assert_eq!(q.name, "下载文件");
    assert_eq!(q.status, QuestStatus::Pending);
    assert_eq!(q.progress, 0);
    let id: Vec<char> = q.id.chars().collect();
    assert_eq!(id.len(), 36);
    for (i, c) in id.iter().enumerate() {
        if i == 8 || i == 13 || i == 18 || i == 23 {
            assert_eq!(*c, '-');
        } else {
            assert!(c.is_ascii_hexdigit() && !c.is_ascii_uppercase());
        }
    }
    assert_eq!(id[14], '4');
    assert!(matches!(id[19], '8' | '9' | 'a' | 'b'));
    let all = list_quests(&m).unwrap();
    assert_eq!(all.len(), 1);
    assert_eq!(all[0].id, q.id);
    assert_eq!(all[0].created_at, q.created_at);
}

#[test]
fn create_quest_gives_distinct_ids() {
    let mut m = QuestManager::new();
    let a = create_quest("a".to_string(), &mut m).unwrap();
    let b = create_quest("b".to_string(), &mut m).unwrap();
    assert_ne!(a.id, b.id);
    assert!(b.created_at >= a.created_at);
    assert!(a.created_at > 1_600_000_000);
}

#[test]
fn cancel_quest_command() {
    let mut m = QuestManager::new();
    let q = create_quest("job".to_string(), &mut m).unwrap();
    assert!(cancel_quest("missing".to_string(), &mut m).unwrap().is_none());
    let c = cancel_quest(q.id.clone(), &mut m).unwrap().unwrap();
    assert_eq!(c.id, q.id);
    assert_eq!(c.status, QuestStatus::Canceled);
    assert!(list_quests(&m).unwrap().is_empty());
}

#[test]
fn create_quest_with_given_id_and_time() {
    let mut m = QuestManager::new();
    m.add_quest(quest("old", "earlier"));
    let q = create_quest_with("job".to_string(), "id-7".to_string(), 42, &mut m).unwrap();
    assert_eq!(q.id, "id-7");
    assert_eq!(q.name, "job");
    assert_eq!(q.status, QuestStatus::Pending);
    assert_eq!(q.progress, 0);
    assert_eq!(q.created_at, 42);
    let all = list_quests(&m).unwrap();
    assert_eq!(all.len(), 2);
    assert_eq!(all[1].id, "id-7");
}

#[test]
fn created_quest_stays_listed_until_canceled() {
    let mut m = QuestManager::new();
    let q = create_quest("keep".to_string(), &mut m).unwrap();
    create_quest("other".to_string(), &mut m).unwrap();
    let other_id = list_quests(&m).unwrap()[1].id.clone();
    cancel_quest(other_id, &mut m).unwrap();
    cancel_quest("unknown".to_string(), &mut m).unwrap();
    assert!(list_quests(&m).unwrap().iter().any(|x| x.id == q.id));
    cancel_quest(q.id.clone(), &mut m).unwrap();
    assert!(!list_quests(&m).unwrap().iter().any(|x| x.id == q.id));
}
