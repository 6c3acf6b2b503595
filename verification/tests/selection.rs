use mainnet_replay::order::comes_before;
use mainnet_replay::selection::{select, selects};

fn names(list: &[&str]) -> Vec<Vec<u8>> {
    list.iter().map(|name| name.as_bytes().to_vec()).collect()
}

fn chosen(list: &[&str], only: Option<&str>) -> Vec<usize> {
    select(&names(list), &only.map(|only| only.to_string()))
}

#[test]
fn fixtures_are_chosen_by_extension_and_sorted_by_name() {
    let list = ["token.json", "README.md", "memo_v2.json", "json", ".json", "a.json.bak", "B.json"];
    assert_eq!(chosen(&list, None), vec![6, 2, 0]);
    assert_eq!(chosen(&[], None), Vec::<usize>::new());
}

#[test]
fn one_fixture_can_be_asked_for() {
    let list = ["token.json", "memo_v2.json", "memo_v2.txt", "memo.json", "memo_v2.json.json"];
    assert_eq!(chosen(&list, Some("memo_v2")), vec![1]);
    assert_eq!(chosen(&list, Some("memo_v2.json")), vec![4]);
    assert_eq!(chosen(&list, Some("missing")), Vec::<usize>::new());
    assert_eq!(chosen(&["caf\u{e9}.json", "cafe.json"], Some("caf\u{e9}")), vec![0]);
}

#[test]
fn a_single_byte_is_enough_before_the_ending() {
    assert!(selects(&b"x.json".to_vec(), &None));
    assert!(selects(&b"..json".to_vec(), &None));
    assert!(!selects(&b".json".to_vec(), &None));
    assert!(!selects(&b"xjson".to_vec(), &None));
    assert!(!selects(&b"x.JSON".to_vec(), &None));
    assert!(selects(&vec![255, 46, 106, 115, 111, 110], &None));
    assert!(!selects(&vec![255, 46, 106, 115, 111, 110], &Some("\u{ff}".to_string())));
}

#[test]
fn equal_names_keep_their_places() {
    assert_eq!(chosen(&["b.json", "a.json", "b.json", "a.json"], None), vec![1, 3, 0, 2]);
}

#[test]
fn names_are_compared_by_their_bytes() {
    let before = |a: &[u8], b: &[u8]| comes_before(&a.to_vec(), &b.to_vec());
    assert!(before(b"a", b"b"));
    assert!(!before(b"b", b"a"));
    assert!(!before(b"a", b"a"));
    assert!(before(b"a", b"aa"));
    assert!(before(b"", b"a"));
    assert!(!before(b"aa", b"a"));
    assert!(before(b"Z", b"a"));
    assert!(before(b"a.json", b"a1.json"));
    assert!(before(&[1, 200, 3], &[1, 201]));
}
