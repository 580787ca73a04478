use zhur_core::kv::KvStore;

fn s(x: &str) -> String {
    x.to_string()
}

#[test]
fn set_then_get_returns_value() {
    let mut st = KvStore::new();
    st.set(s("users"), s("1"), vec![1, 2, 3]);
    assert_eq!(st.get("users", "1"), Some(vec![1, 2, 3]));
}

#[test]
fn get_missing_key_is_none() {
    let mut st = KvStore::new();
    assert_eq!(st.get("users", "1"), None);
    st.set(s("users"), s("2"), vec![9]);
    assert_eq!(st.get("users", "1"), None);
    assert_eq!(st.get("other", "2"), None);
}

#[test]
fn set_overwrites_in_place() {
    let mut st = KvStore::new();
    st.set(s("t"), s("a"), vec![1]);
    st.set(s("t"), s("b"), vec![2]);
    st.set(s("t"), s("a"), vec![3]);
    assert_eq!(st.len(), 2);
    assert_eq!(st.get("t", "a"), Some(vec![3]));
    assert_eq!(st.get_prefix("t", ""), vec![(s("a"), vec![3]), (s("b"), vec![2])]);
}

#[test]
fn del_then_get_is_none() {
    let mut st = KvStore::new();
    st.set(s("t"), s("k"), vec![7]);
    st.del("t", "k");
    assert_eq!(st.get("t", "k"), None);
    assert_eq!(st.len(), 0);
    st.del("t", "k");
    assert_eq!(st.len(), 0);
}

#[test]
fn set_many_then_get_prefix_returns_both() {
    let mut st = KvStore::new();
    st.set_many(s("t"), vec![(s("k1"), vec![1]), (s("k2"), vec![2])]);
    let all = st.get_prefix("t", "");
    assert_eq!(all, vec![(s("k1"), vec![1]), (s("k2"), vec![2])]);
}

#[test]
fn set_many_later_item_wins() {
    let mut st = KvStore::new();
    st.set_many(s("t"), vec![(s("k"), vec![1]), (s("k"), vec![2])]);
    assert_eq!(st.get("t", "k"), Some(vec![2]));
    assert_eq!(st.len(), 1);
}

#[test]
fn get_prefix_keeps_to_table_and_prefix() {
    let mut st = KvStore::new();
    st.set(s("t"), s("apple"), vec![1]);
    st.set(s("u"), s("apricot"), vec![2]);
    st.set(s("t"), s("banana"), vec![3]);
    st.set(s("t"), s("apricot"), vec![4]);
    assert_eq!(
        st.get_prefix("t", "ap"),
        vec![(s("apple"), vec![1]), (s("apricot"), vec![4])]
    );
    assert_eq!(st.get_prefix("t", "apples"), vec![]);
}

#[test]
fn del_prefix_counts_removed_items() {
    let mut st = KvStore::new();
    st.set(s("t"), s("a1"), vec![1]);
    st.set(s("t"), s("b1"), vec![2]);
    st.set(s("t"), s("a2"), vec![3]);
    st.set(s("u"), s("a3"), vec![4]);
    assert_eq!(st.del_prefix("t", "a"), 2);
    assert_eq!(st.len(), 2);
    assert_eq!(st.get("t", "b1"), Some(vec![2]));
    assert_eq!(st.get("u", "a3"), Some(vec![4]));
    assert_eq!(st.del_prefix("t", "zz"), 0);
}

#[test]
fn table_and_key_do_not_collide() {
    let mut st = KvStore::new();
    st.set(s("a:b"), s("c"), vec![1]);
    st.set(s("a"), s("b:c"), vec![2]);
    assert_eq!(st.get("a:b", "c"), Some(vec![1]));
    assert_eq!(st.get("a", "b:c"), Some(vec![2]));
}

#[test]
fn non_ascii_keys_compare_by_character() {
    let mut st = KvStore::new();
    st.set(s("tä"), s("ключ"), vec![5]);
    assert_eq!(st.get("tä", "ключ"), Some(vec![5]));
    assert_eq!(st.get("ta", "ключ"), None);
    assert_eq!(st.get_prefix("tä", "кл"), vec![(s("ключ"), vec![5])]);
}

#[test]
fn get_prefix_answers_in_key_order() {
    let mut st = KvStore::new();
    st.set(s("t"), s("b"), vec![2]);
    st.set(s("t"), s("a"), vec![1]);
    st.set(s("s"), s("a0"), vec![9]);
    st.set(s("t"), s("ab"), vec![3]);
    st.set(s("t"), s("B"), vec![4]);
    assert_eq!(
        st.get_prefix("t", ""),
        vec![(s("B"), vec![4]), (s("a"), vec![1]), (s("ab"), vec![3]), (s("b"), vec![2])]
    );
    assert_eq!(st.get_prefix("t", "a"), vec![(s("a"), vec![1]), (s("ab"), vec![3])]);
    st.del("t", "a");
    st.set_many(s("t"), vec![(s("c"), vec![5]), (s("aa"), vec![6])]);
    assert_eq!(
        st.get_prefix("t", ""),
        vec![(s("B"), vec![4]), (s("aa"), vec![6]), (s("ab"), vec![3]), (s("b"), vec![2]), (s("c"), vec![5])]
    );
    assert_eq!(st.del_prefix("t", "a"), 2);
    assert_eq!(st.get_prefix("t", ""), vec![(s("B"), vec![4]), (s("b"), vec![2]), (s("c"), vec![5])]);
    assert_eq!(st.get_prefix("s", ""), vec![(s("a0"), vec![9])]);
}

#[test]
fn code_point_order_beyond_ascii() {
    let mut st = KvStore::new();
    st.set(s("t"), s("é"), vec![1]);
    st.set(s("t"), s("z"), vec![2]);
    st.set(s("t"), s("ключ"), vec![3]);
    let keys: Vec<String> = st.get_prefix("t", "").into_iter().map(|p| p.0).collect();
    assert_eq!(keys, vec![s("z"), s("é"), s("ключ")]);
}
