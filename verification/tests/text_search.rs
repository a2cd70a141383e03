use bytekit::{text_of, FromBytes, IteratorExt};

#[derive(Debug, PartialEq)]
struct Count(u32);

impl FromBytes for Count {
    type Err = std::num::ParseIntError;

    fn from_text(s: &str) -> Result<Count, std::num::ParseIntError> {
        s.parse().map(Count)
    }
}

#[test]
fn reads_a_string() {
    assert_eq!(String::from_bytes(b"plain"), Ok(String::from("plain")));
    assert_eq!(String::from_bytes("héllo".as_bytes()), Ok(String::from("héllo")));
    assert_eq!(String::from_bytes(b""), Ok(String::new()));
    assert_eq!(String::from_text("x"), Ok(String::from("x")));
}

#[test]
fn reads_what_the_type_reads_from_text() {
    assert_eq!(Count::from_bytes(b"42"), Ok(Count(42)));
    assert_eq!(Count::from_bytes(b"42"), Count::from_text("42"));
    assert_eq!(Count::from_bytes(b"4 2"), Count::from_text("4 2"));
    assert!(Count::from_bytes(b"forty-two").is_err());
    assert!(Count::from_bytes(b"").is_err());
}

#[test]
fn text_is_well_formed_utf8() {
    assert_eq!(text_of(b"abc"), Some("abc"));
    assert_eq!(text_of("ß→".as_bytes()), Some("ß→"));
    assert_eq!(text_of(b""), Some(""));
    assert_eq!(text_of(b"a\xFFb"), None);
    assert_eq!(text_of(b"\xC3"), None);
    assert_eq!(text_of(b"\xED\xA0\x80"), None);
}

#[test]
fn finds_the_first_yes() {
    let mut items = [1, 4, 6, 9].into_iter();
    let found: Result<Option<i32>, String> = items.try_find_(|x| Ok(x % 2 == 0));
    assert_eq!(found, Ok(Some(4)));
    assert_eq!(items.next(), Some(6));
}

#[test]
fn finds_nothing_when_items_run_out() {
    let mut items = [1, 3, 5].into_iter();
    let found: Result<Option<i32>, String> = items.try_find_(|x| Ok(x % 2 == 0));
    assert_eq!(found, Ok(None));
    assert_eq!(items.next(), None);
    let mut none = Vec::<i32>::new().into_iter();
    let found: Result<Option<i32>, String> = none.try_find_(|_| Ok(true));
    assert_eq!(found, Ok(None));
}

#[test]
fn stops_at_the_first_failure() {
    let mut asked = Vec::new();
    let mut items = [1, 3, 0, 4, 5].into_iter();
    let found = items.try_find_(|x| {
        asked.push(*x);
        if *x == 0 {
            Err(format!("zero after {} items", asked.len() - 1))
        } else {
            Ok(*x % 2 == 0)
        }
    });
    assert_eq!(found, Err(String::from("zero after 2 items")));
    assert_eq!(asked, vec![1, 3, 0]);
    assert_eq!(items.next(), Some(4));
}

#[test]
fn asks_each_item_once_in_order() {
    let mut asked = Vec::new();
    let mut items = ["a", "b", "c", "d"].into_iter();
    let found: Result<Option<&str>, ()> = items.try_find_(|x| {
        asked.push(*x);
        Ok(*x == "c")
    });
    assert_eq!(found, Ok(Some("c")));
    assert_eq!(asked, vec!["a", "b", "c"]);
}
