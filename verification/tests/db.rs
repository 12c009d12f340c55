use snapchain::storage::db::{Db, Entry, PageOptions, Txn, PAGE_SIZE_MAX};
use snapchain::storage::keys::key_less;

fn entry(key: &[u8], value: &[u8]) -> Entry {
    Entry { key: key.to_vec(), value: value.to_vec() }
}

fn filled(keys: &[&[u8]]) -> Db {
    let mut db = Db::new();
    for k in keys {
        db.put(k.to_vec(), k.to_vec());
    }
    db
}

fn options(page_size: Option<usize>, page_token: Option<Vec<u8>>, reverse: bool) -> PageOptions {
    PageOptions { page_size, page_token, reverse }
}

#[test]
fn keys_compare_lexicographically() {
    assert!(key_less(&vec![], &vec![0]));
    assert!(!key_less(&vec![], &vec![]));
    assert!(!key_less(&vec![0], &vec![]));
    assert!(key_less(&vec![1], &vec![1, 0]));
    assert!(key_less(&vec![1, 255], &vec![2]));
    assert!(!key_less(&vec![2], &vec![1, 255]));
    assert!(!key_less(&vec![1, 2, 3], &vec![1, 2, 3]));
    assert!(key_less(&vec![1, 2, 3], &vec![1, 2, 4]));
}

#[test]
fn get_returns_what_put_stored() {
    let mut db = Db::new();
    assert_eq!(db.get(&vec![1]), None);
    db.put(vec![1], vec![10]);
    db.put(vec![0], vec![20]);
    db.put(vec![1, 0], vec![30]);
    assert_eq!(db.len(), 3);
    assert_eq!(db.get(&vec![1]), Some(vec![10]));
    assert_eq!(db.get(&vec![0]), Some(vec![20]));
    assert_eq!(db.get(&vec![1, 0]), Some(vec![30]));
    assert_eq!(db.get(&vec![2]), None);
    assert_eq!(db.get(&vec![]), None);
}

#[test]
fn put_replaces_the_value_of_a_key() {
    let mut db = Db::new();
    db.put(vec![1], vec![10]);
    db.put(vec![1], vec![11]);
    assert_eq!(db.len(), 1);
    assert_eq!(db.get(&vec![1]), Some(vec![11]));
}

#[test]
fn commit_applies_writes_in_order() {
    let mut db = Db::new();
    db.put(vec![5], vec![0]);
    let mut txn = Txn::new();
    txn.put(vec![5], vec![1]);
    txn.put(vec![3], vec![2]);
    txn.put(vec![5], vec![3]);
    db.commit(txn);
    assert_eq!(db.len(), 2);
    assert_eq!(db.get(&vec![5]), Some(vec![3]));
    assert_eq!(db.get(&vec![3]), Some(vec![2]));
    db.commit(Txn::new());
    assert_eq!(db.len(), 2);
}

#[test]
fn range_holds_start_and_not_stop() {
    let db = filled(&[&[3], &[1], &[2], &[5], &[4]]);
    let page = db.get_range(&vec![2], &Some(vec![4]), &options(None, None, false));
    assert_eq!(page.entries, vec![entry(&[2], &[2]), entry(&[3], &[3])]);
    assert_eq!(page.next_page_token, None);
}

#[test]
fn range_without_stop_runs_to_the_end() {
    let db = filled(&[&[3], &[1], &[2]]);
    let page = db.get_range(&vec![2], &None, &options(None, None, false));
    assert_eq!(page.entries, vec![entry(&[2], &[2]), entry(&[3], &[3])]);
    let page = db.get_range(&vec![], &None, &options(None, None, true));
    assert_eq!(page.entries, vec![entry(&[3], &[3]), entry(&[2], &[2]), entry(&[1], &[1])]);
}

#[test]
fn empty_and_inverted_ranges_are_empty() {
    let db = filled(&[&[1], &[2], &[3]]);
    assert_eq!(db.get_range(&vec![2], &Some(vec![2]), &options(None, None, false)).entries, vec![]);
    assert_eq!(db.get_range(&vec![3], &Some(vec![1]), &options(None, None, false)).entries, vec![]);
    assert_eq!(db.get_range(&vec![4], &None, &options(None, None, true)).entries, vec![]);
    let none = Db::new();
    let page = none.get_range(&vec![], &None, &options(Some(1), None, false));
    assert_eq!(page.entries, vec![]);
    assert_eq!(page.next_page_token, None);
}

#[test]
fn page_token_is_the_last_key_when_more_remain() {
    let db = filled(&[&[1], &[2], &[3]]);
    let page = db.get_range(&vec![], &None, &options(Some(2), None, false));
    assert_eq!(page.entries, vec![entry(&[1], &[1]), entry(&[2], &[2])]);
    assert_eq!(page.next_page_token, Some(vec![2]));
    let page = db.get_range(&vec![], &None, &options(Some(2), Some(vec![2]), false));
    assert_eq!(page.entries, vec![entry(&[3], &[3])]);
    assert_eq!(page.next_page_token, None);
    let page = db.get_range(&vec![], &None, &options(Some(3), None, false));
    assert_eq!(page.entries.len(), 3);
    assert_eq!(page.next_page_token, None);
}

#[test]
fn forward_token_resumes_strictly_behind_it() {
    let db = filled(&[&[1], &[1, 0], &[1, 0, 0], &[2]]);
    let page = db.get_range(&vec![], &None, &options(None, Some(vec![1]), false));
    assert_eq!(
        page.entries,
        vec![entry(&[1, 0], &[1, 0]), entry(&[1, 0, 0], &[1, 0, 0]), entry(&[2], &[2])]
    );
    let page = db.get_range(&vec![], &None, &options(None, Some(vec![1, 0]), false));
    assert_eq!(page.entries, vec![entry(&[1, 0, 0], &[1, 0, 0]), entry(&[2], &[2])]);
}

#[test]
fn reverse_token_resumes_strictly_before_it() {
    let db = filled(&[&[1], &[2], &[3], &[4]]);
    let page = db.get_range(&vec![2], &None, &options(Some(1), None, true));
    assert_eq!(page.entries, vec![entry(&[4], &[4])]);
    assert_eq!(page.next_page_token, Some(vec![4]));
    let page = db.get_range(&vec![2], &None, &options(Some(5), Some(vec![4]), true));
    assert_eq!(page.entries, vec![entry(&[3], &[3]), entry(&[2], &[2])]);
    assert_eq!(page.next_page_token, None);
}

#[test]
fn a_token_outside_the_range_does_not_widen_it() {
    let db = filled(&[&[1], &[2], &[3], &[4]]);
    let page = db.get_range(&vec![3], &None, &options(None, Some(vec![1]), false));
    assert_eq!(page.entries, vec![entry(&[3], &[3]), entry(&[4], &[4])]);
    let page = db.get_range(&vec![1], &Some(vec![3]), &options(None, Some(vec![4]), true));
    assert_eq!(page.entries, vec![entry(&[2], &[2]), entry(&[1], &[1])]);
}

#[test]
fn page_without_size_holds_at_most_the_maximum() {
    assert_eq!(PAGE_SIZE_MAX, 10_000);
    let mut db = Db::new();
    for n in (0..(PAGE_SIZE_MAX as u32 + 5)).rev() {
        db.put(n.to_be_bytes().to_vec(), vec![]);
    }
    let page = db.get_range(&vec![], &None, &options(None, None, false));
    assert_eq!(page.entries.len(), PAGE_SIZE_MAX);
    assert_eq!(page.next_page_token, Some((PAGE_SIZE_MAX as u32 - 1).to_be_bytes().to_vec()));
    assert_eq!(options(None, None, false).page_limit(), PAGE_SIZE_MAX);
    assert_eq!(options(Some(7), None, false).page_limit(), 7);
}

#[test]
fn pages_put_together_are_the_whole_scan() {
    let mut db = Db::new();
    for n in 0..57u8 {
        db.put(vec![n.wrapping_mul(37)], vec![n]);
    }
    for reverse in [false, true] {
        let whole = db.get_range(&vec![10], &Some(vec![240]), &options(Some(1000), None, reverse));
        assert_eq!(whole.next_page_token, None);
        for size in [1usize, 2, 5, 56, 57, 100] {
            let mut got = Vec::new();
            let mut token = None;
            loop {
                let page =
                    db.get_range(&vec![10], &Some(vec![240]), &options(Some(size), token, reverse));
                assert!(page.entries.len() <= size);
                got.extend(page.entries);
                token = page.next_page_token;
                if token.is_none() {
                    break;
                }
            }
            assert_eq!(got, whole.entries, "size {} reverse {}", size, reverse);
        }
    }
}

#[test]
fn last_in_range_is_the_greatest_key_before_stop() {
    let db = filled(&[&[1], &[2], &[3], &[4]]);
    assert_eq!(db.last_in_range(&vec![1], &vec![4]), Some(entry(&[3], &[3])));
    assert_eq!(db.last_in_range(&vec![1], &vec![9]), Some(entry(&[4], &[4])));
    assert_eq!(db.last_in_range(&vec![5], &vec![9]), None);
    assert_eq!(db.last_in_range(&vec![2], &vec![2]), None);
}
