use pop3::mailbox::Mailbox;
use pop3::mailbox::MailboxError;
use pop3::mailbox::uid_ok;

fn sample_box() -> Mailbox {
    let mut mb = Mailbox::new();
    assert!(mb.put(1, 120, "uid-one".to_string()));
    assert!(mb.put(2, 200, "uid-two".to_string()));
    mb
}

#[test]
fn new_mailbox_is_empty() {
    let mb = Mailbox::new();
    assert_eq!(mb.len(), 0);
    assert_eq!(mb.stat(), (0, 0));
    assert!(mb.list().is_empty());
}

#[test]
fn put_and_stat() {
    let mb = sample_box();
    assert_eq!(mb.len(), 2);
    assert_eq!(mb.stat(), (2, 320));
}

#[test]
fn put_keeps_number_order() {
    let mut mb = Mailbox::new();
    assert!(mb.put(3, 30, "uid-c".to_string()));
    assert!(mb.put(1, 10, "uid-a".to_string()));
    assert!(mb.put(2, 20, "uid-b".to_string()));
    let listing = mb.list();
    let ids: Vec<usize> = listing.iter().map(|m| m.id).collect();
    assert_eq!(ids, vec![1, 2, 3]);
}

#[test]
fn put_replaces_same_number() {
    let mut mb = sample_box();
    assert!(mb.put(2, 250, "uid-two-b".to_string()));
    assert_eq!(mb.len(), 2);
    assert_eq!(mb.stat(), (2, 370));
    let uids = mb.uidl_list();
    assert_eq!(uids[1].uid, "uid-two-b");
}

#[test]
fn put_rejects_bad_input() {
    let mut mb = Mailbox::new();
    assert!(!mb.put(0, 10, "uid".to_string()));
    assert!(!mb.put(1, 10, "".to_string()));
    assert!(!mb.put(1, 10, "has space".to_string()));
    assert_eq!(mb.len(), 0);
}

#[test]
fn uid_ok_checks_length_and_characters() {
    assert!(uid_ok("x"));
    assert!(uid_ok("whqtswO00WBw418f9t5JxYwZ"));
    assert!(!uid_ok(""));
    assert!(!uid_ok(&"y".repeat(71)));
    assert!(uid_ok(&"y".repeat(70)));
    assert!(!uid_ok("with space"));
    assert!(!uid_ok("tab\there"));
}

#[test]
fn get_finds_deleted_and_live_entries() {
    let mut mb = sample_box();
    assert_eq!(mb.get(1).unwrap().size, 120);
    assert!(mb.get(9).is_none());
    mb.mark_deleted(1).unwrap();
    assert_eq!(mb.get(1).unwrap().size, 120);
    assert!(mb.scan_one(1).is_none());
}

#[test]
fn mark_deleted_excludes_from_stat_and_list() {
    let mut mb = sample_box();
    mb.mark_deleted(1).unwrap();
    assert_eq!(mb.stat(), (1, 200));
    let listing = mb.list();
    assert_eq!(listing.len(), 1);
    assert_eq!(listing[0].id, 2);
    assert_eq!(listing[0].size, 200);
    let uids = mb.uidl_list();
    assert_eq!(uids.len(), 1);
    assert_eq!(uids[0].id, 2);
}

#[test]
fn mark_deleted_twice_reports_already_deleted() {
    let mut mb = sample_box();
    assert!(mb.mark_deleted(1).is_ok());
    assert_eq!(mb.mark_deleted(1), Err(MailboxError::AlreadyDeleted));
    assert_eq!(mb.mark_deleted(7), Err(MailboxError::NotFound));
}

#[test]
fn clear_marks_restores_everything() {
    let mut mb = sample_box();
    mb.mark_deleted(1).unwrap();
    mb.mark_deleted(2).unwrap();
    assert_eq!(mb.stat(), (0, 0));
    mb.clear_marks();
    assert_eq!(mb.stat(), (2, 320));
    let ids: Vec<usize> = mb.list().iter().map(|m| m.id).collect();
    assert_eq!(ids, vec![1, 2]);
}

#[test]
fn commit_removes_marked_entries_for_good() {
    let mut mb = sample_box();
    mb.mark_deleted(1).unwrap();
    mb.commit();
    assert_eq!(mb.len(), 1);
    assert_eq!(mb.stat(), (1, 200));
    assert!(mb.get(1).is_none());
    assert_eq!(mb.mark_deleted(1), Err(MailboxError::NotFound));
    mb.clear_marks();
    assert_eq!(mb.stat(), (1, 200));
}

#[test]
fn uidl_round_trips_unique_ids_exactly() {
    let mut mb = Mailbox::new();
    let uid = "QhdPYR:00WBw1Ph7x7";
    assert!(mb.put(2, 200, uid.to_string()));
    let uids = mb.uidl_list();
    assert_eq!(uids[0].uid, uid);
    assert_eq!(mb.uid_one(2).unwrap(), uid);
    assert!(mb.uid_one(1).is_none());
}
