use askama::filters::uppercase;
use askama::helpers::{map_some, TemplateLoop};

#[test]
fn test_map() {
    struct Test<'a> {
        a: Vec<Bar<'a>>,
    }

    struct Bar<'a> {
        b: Option<&'a str>,
        n: Option<i32>,
    }

    let a = &Test {
        a: vec![
            Bar { b: Some("foo"), n: Some(1) },
            Bar { b: None, n: Some(-1) },
            Bar { b: Some("bar"), n: None },
        ],
    };

    let bs: Vec<Option<&str>> = a.a.iter().map(|i| i.b).collect();
    let ns: Vec<Option<i32>> = a.a.iter().map(|i| i.n).collect();

    assert_eq!(map_some(&bs), vec!["foo", "bar"]);
    let upper: Vec<String> = map_some(&bs).iter().map(|s| uppercase(s).unwrap()).collect();
    assert_eq!(upper, vec!["FOO", "BAR"]);

    let c: Vec<i32> = map_some(&ns).iter().map(|n| n.abs()).collect();
    assert_eq!(c[0], 1 as i32);
    assert_eq!(c[1], 1 as i32);
}

#[test]
fn loop_items_positions() {
    let mut l = TemplateLoop::new(vec!["a", "b", "c"]);
    let (x, i) = l.next().unwrap();
    assert_eq!((x, i.index, i.first, i.last), ("a", 0, true, false));
    let (x, i) = l.next().unwrap();
    assert_eq!((x, i.index, i.first, i.last), ("b", 1, false, false));
    let (x, i) = l.next().unwrap();
    assert_eq!((x, i.index, i.first, i.last), ("c", 2, false, true));
    assert!(l.next().is_none());
    assert!(l.next().is_none());
}

#[test]
fn loop_single_item_is_first_and_last() {
    let mut l = TemplateLoop::new(vec![7u8]);
    let (x, i) = l.next().unwrap();
    assert_eq!((x, i.index, i.first, i.last), (7, 0, true, true));
    assert!(l.next().is_none());
}

#[test]
fn loop_empty() {
    let mut l: TemplateLoop<u8> = TemplateLoop::new(vec![]);
    assert!(l.next().is_none());
}
