use avl_list::list::{render_texts, ListNode};

fn list_of(values: Vec<i32>) -> ListNode<i32> {
    ListNode::from_sequence(values)
}

#[test]
fn list_basics() {
    let mut list = ListNode::new();
    list.insert(1);
    list.insert(2);
    list.insert(3);
    assert_eq!(list.to_string(), "1 -> 2 -> 3 -> Nil");
    list.reverse();
    assert!(list == list_of(vec![3, 2, 1]));
    list.delete();
    assert_eq!(list.to_sequence(), vec![2, 1]);
}

#[test]
fn new_list_is_empty() {
    let list: ListNode<i32> = ListNode::new();
    assert!(matches!(list, ListNode::Nil));
    assert_eq!(list.to_sequence(), Vec::<i32>::new());
}

#[test]
fn default_list_is_empty() {
    let list: ListNode<u8> = ListNode::default();
    assert!(matches!(list, ListNode::Nil));
}

#[test]
fn empty_list_renders_as_nil() {
    let list: ListNode<i32> = ListNode::new();
    assert_eq!(list.to_string(), "Nil");
}

#[test]
fn single_value_renders_with_one_arrow() {
    let list = list_of(vec![7]);
    assert_eq!(list.to_string(), "7 -> Nil");
}

#[test]
fn render_texts_joins_with_arrows() {
    let texts = vec![String::from("a"), String::from("bc"), String::from("")];
    assert_eq!(render_texts(&texts), "a -> bc ->  -> Nil");
    assert_eq!(render_texts(&Vec::new()), "Nil");
}

#[test]
fn insert_into_empty_makes_one_cell() {
    let mut list = ListNode::new();
    list.insert(5);
    match list {
        ListNode::Cons(value, tail) => {
            assert_eq!(value, 5);
            assert!(matches!(*tail, ListNode::Nil));
        }
        ListNode::Nil => panic!("the list is empty"),
    }
}

#[test]
fn insert_appends_at_the_tail() {
    let mut list = list_of(vec![1, 2]);
    list.insert(9);
    assert_eq!(list.to_sequence(), vec![1, 2, 9]);
}

#[test]
fn insert_returns_the_head_for_chaining() {
    let mut list = ListNode::new();
    list.insert(1).insert(2).insert(3);
    assert_eq!(list.to_sequence(), vec![1, 2, 3]);
    let mut other = list_of(vec![4]);
    let head = other.insert(5);
    assert_eq!(head.to_string(), "4 -> 5 -> Nil");
}

#[test]
fn delete_on_empty_is_a_no_op() {
    let mut list: ListNode<i32> = ListNode::new();
    list.delete();
    assert!(matches!(list, ListNode::Nil));
}

#[test]
fn delete_removes_the_head() {
    let mut list = list_of(vec![4, 5, 6]);
    list.delete();
    assert_eq!(list.to_sequence(), vec![5, 6]);
}

#[test]
fn delete_shrinks_by_one() {
    for n in 1..20usize {
        let values: Vec<i32> = (0..n as i32).collect();
        let mut list = list_of(values.clone());
        list.delete();
        let left = list.to_sequence();
        assert_eq!(left.len(), n - 1);
        assert_eq!(left, values[1..].to_vec());
    }
}

#[test]
fn delete_down_to_empty() {
    let mut list = list_of(vec![1]);
    list.delete();
    assert!(matches!(list, ListNode::Nil));
    list.delete();
    assert!(matches!(list, ListNode::Nil));
}

#[test]
fn reverse_of_empty_and_single() {
    let mut empty: ListNode<i32> = ListNode::new();
    empty.reverse();
    assert!(matches!(empty, ListNode::Nil));
    let mut single = list_of(vec![1]);
    single.reverse();
    assert_eq!(single.to_sequence(), vec![1]);
}

#[test]
fn reverse_turns_the_order_round() {
    let mut list = list_of(vec![1, 2, 3, 4, 5]);
    list.reverse();
    assert_eq!(list.to_sequence(), vec![5, 4, 3, 2, 1]);
}

#[test]
fn reverse_twice_is_identity() {
    for n in 0..20 {
        let values: Vec<i32> = (0..n).map(|i| i * 7 % 5).collect();
        let mut list = list_of(values.clone());
        list.reverse();
        list.reverse();
        assert_eq!(list.to_sequence(), values);
    }
}

#[test]
fn sequence_round_trip() {
    for n in 0..20 {
        let values: Vec<i32> = (0..n).map(|i| 100 - i * 3).collect();
        assert_eq!(list_of(values.clone()).to_sequence(), values);
    }
}

#[test]
fn from_and_into_convert_like_the_methods() {
    let list: ListNode<i32> = ListNode::from(vec![1, 2, 3]);
    assert_eq!(list.to_string(), "1 -> 2 -> 3 -> Nil");
    let values: Vec<i32> = list.into();
    assert_eq!(values, vec![1, 2, 3]);
    let again = Vec::from(ListNode::from(vec![8, 9]));
    assert_eq!(again, vec![8, 9]);
}

#[test]
fn from_sequence_puts_the_first_value_at_the_head() {
    match list_of(vec![10, 20]) {
        ListNode::Cons(value, _) => assert_eq!(value, 10),
        ListNode::Nil => panic!("the list is empty"),
    }
}

#[test]
fn equal_lists_compare_equal() {
    assert!(list_of(vec![]) == list_of(vec![]));
    assert!(list_of(vec![1, 2, 3]) == list_of(vec![1, 2, 3]));
}

#[test]
fn lists_of_other_length_or_values_differ() {
    assert!(list_of(vec![1, 2, 3]) != list_of(vec![1, 2]));
    assert!(list_of(vec![1, 2]) != list_of(vec![1, 2, 3]));
    assert!(list_of(vec![1, 2, 3]) != list_of(vec![1, 2, 4]));
    assert!(list_of(vec![0, 2, 3]) != list_of(vec![1, 2, 3]));
    assert!(list_of(vec![]) != list_of(vec![1]));
}

#[test]
fn long_list_is_handled_without_recursion() {
    let n = 20_000;
    let mut list = ListNode::new();
    {
        let mut tail = &mut list;
        for i in 0..n {
            *tail = ListNode::Cons(i, Box::new(ListNode::Nil));
            if let ListNode::Cons(_, next) = tail {
                tail = &mut **next;
            }
        }
    }
    list.reverse();
    list.delete();
    list.insert(-1);
    let values = list.to_sequence();
    assert_eq!(values.len(), n as usize);
    assert_eq!(values[0], n - 2);
    assert_eq!(values[values.len() - 1], -1);
}

#[test]
fn list_debug_names_the_variants() {
    let text = format!("{:?}", list_of(vec![1]));
    assert_eq!(text, "Cons(1, Nil)");
}
