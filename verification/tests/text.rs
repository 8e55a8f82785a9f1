use sm_connect::sorting::key_before;
use sm_connect::sorting::stable_order;
use sm_connect::sorting::SortKey;
use sm_connect::text::chars_of;
use sm_connect::text::contains_chars;
use sm_connect::text::contains_string;
use sm_connect::text::join;
use sm_connect::text::split;
use sm_connect::text::str_lt;
use sm_connect::text::string_of;

fn strings(items: &[&str]) -> Vec<String> {
    items.iter().map(|s| s.to_string()).collect()
}

fn key(rank: u8, text: &str) -> SortKey {
    SortKey { rank, text: text.to_string() }
}

#[test]
fn chars_and_back() {
    assert_eq!(chars_of("aé日"), vec!['a', 'é', '日']);
    assert_eq!(string_of(&vec!['a', 'é', '日']), "aé日");
    assert_eq!(string_of(&Vec::new()), "");
}

#[test]
fn substring_search() {
    let hay = chars_of("web-01");
    assert!(contains_chars(&hay, &chars_of("web")));
    assert!(contains_chars(&hay, &chars_of("-0")));
    assert!(contains_chars(&hay, &chars_of("01")));
    assert!(contains_chars(&hay, &chars_of("web-01")));
    assert!(contains_chars(&hay, &chars_of("")));
    assert!(!contains_chars(&hay, &chars_of("web-02")));
    assert!(!contains_chars(&hay, &chars_of("web-011")));
    assert!(!contains_chars(&hay, &chars_of("WEB")));
    assert!(contains_chars(&chars_of(""), &chars_of("")));
    assert!(!contains_chars(&chars_of(""), &chars_of("a")));
    assert!(contains_chars(&chars_of("aab"), &chars_of("ab")));
}

#[test]
fn split_at_commas() {
    assert_eq!(split("a,b,c", ','), strings(&["a", "b", "c"]));
    assert_eq!(split("", ','), strings(&[""]));
    assert_eq!(split("a", ','), strings(&["a"]));
    assert_eq!(split("a,", ','), strings(&["a", ""]));
    assert_eq!(split(",a", ','), strings(&["", "a"]));
    assert_eq!(split(",,", ','), strings(&["", "", ""]));
    assert_eq!(split("eu-west-1,us-east-1", ','), strings(&["eu-west-1", "us-east-1"]));
}

#[test]
fn split_agrees_with_std() {
    for text in ["", ",", "a,b", ",a,,b,", "é,日本,", "no commas"] {
        let expected: Vec<String> = text.split(',').map(|s| s.to_string()).collect();
        assert_eq!(split(text, ','), expected);
    }
}

#[test]
fn join_with_commas() {
    assert_eq!(join(&strings(&["a", "b", "c"]), ','), "a,b,c");
    assert_eq!(join(&strings(&[]), ','), "");
    assert_eq!(join(&strings(&["a"]), ','), "a");
    assert_eq!(join(&strings(&["", ""]), ','), ",");
    assert_eq!(join(&strings(&["", "a"]), ','), ",a");
}

#[test]
fn joining_the_fields_gives_the_text_back() {
    for text in ["", ",", "a,b", ",a,,b,", "é,日本,"] {
        assert_eq!(join(&split(text, ','), ','), text);
    }
}

#[test]
fn membership_in_a_list_of_strings() {
    let list = strings(&["eu-west-1", "us-east-1"]);
    assert!(contains_string(&list, &"us-east-1".to_string()));
    assert!(!contains_string(&list, &"us-east".to_string()));
    assert!(!contains_string(&Vec::new(), &"".to_string()));
}

#[test]
fn keys_order_by_rank_then_text() {
    assert!(key_before(&key(0, "b"), &key(1, "a")));
    assert!(!key_before(&key(1, "a"), &key(0, "b")));
    assert!(key_before(&key(0, "a"), &key(0, "b")));
    assert!(!key_before(&key(0, "b"), &key(0, "a")));
    assert!(!key_before(&key(0, "a"), &key(0, "a")));
    assert!(key_before(&key(0, "a"), &key(0, "ab")));
    assert!(key_before(&key(0, ""), &key(0, "a")));
    assert!(key_before(&key(0, "Z"), &key(0, "a")));
    assert!(key_before(&key(0, "z"), &key(0, "é")));
}

#[test]
fn stable_order_lists_positions_in_sorted_order() {
    let keys = vec![key(1, "b"), key(0, "z"), key(1, "a"), key(0, "c")];
    assert_eq!(stable_order(&keys), vec![3, 1, 2, 0]);
    assert_eq!(stable_order(&Vec::new()), Vec::<usize>::new());
    assert_eq!(stable_order(&vec![key(0, "x")]), vec![0]);
}

#[test]
fn stable_order_keeps_equal_keys_in_place() {
    let keys = vec![key(0, "b"), key(0, "a"), key(0, "b"), key(0, "a"), key(0, "b")];
    assert_eq!(stable_order(&keys), vec![1, 3, 0, 2, 4]);
}

#[test]
fn strings_are_ordered_by_their_characters() {
    assert!(str_lt("a", "b"));
    assert!(!str_lt("b", "a"));
    assert!(!str_lt("a", "a"));
    assert!(str_lt("", "a"));
    assert!(!str_lt("a", ""));
    assert!(!str_lt("", ""));
    assert!(str_lt("ab", "abc"));
    assert!(!str_lt("abc", "ab"));
    assert!(str_lt("abc", "abd"));
    assert!(str_lt("Z", "a"));
    assert!(str_lt("us-east-1", "us-east-2"));
}

#[test]
fn the_order_of_strings_is_that_of_std() {
    let texts = ["", "a", "ab", "b", "é", "z", "日本", "日", "\u{10000}", "\u{ffff}", "A", "a-region"];
    for a in texts {
        for b in texts {
            assert_eq!(str_lt(a, b), a < b);
        }
    }
}
