use amuri::parse::query::{parse_and, parse_query, OwnedQueryPair, QueryPair};
use amuri::parse::utils::{FailKind, SegmentError};

#[test]
fn can_parse_query() {
    assert_eq!(
        parse_query("?version=current"),
        Ok(("", vec![QueryPair::from("version", "current")]))
    )
}

#[test]
fn can_parse_query_and() {
    assert_eq!(
        parse_query("?version=current&server=organic"),
        Ok((
            "",
            vec![
                QueryPair::from("version", "current"),
                QueryPair::from("server", "organic")
            ]
        ))
    )
}

#[test]
fn can_parse_and() {
    assert_eq!(
        parse_and("&version=current"),
        Ok(("", QueryPair::from("version", "current")))
    )
}

#[test]
fn query_values_may_be_numbers() {
    assert_eq!(
        parse_query("?version=0004#main"),
        Ok(("#main", vec![QueryPair::from("version", "0004")]))
    );
}

#[test]
fn query_failures() {
    assert_eq!(parse_query("version=1"), Err(SegmentError { kind: FailKind::Tag, pos: 0 }));
    assert_eq!(parse_query("?version"), Err(SegmentError { kind: FailKind::Tag, pos: 8 }));
    assert_eq!(parse_query("?1=a"), Err(SegmentError { kind: FailKind::Start, pos: 1 }));
    assert_eq!(parse_query("?a=b&c_=d"), Err(SegmentError { kind: FailKind::Tail, pos: 6 }));
    assert_eq!(parse_and("?a=b"), Err(SegmentError { kind: FailKind::Tag, pos: 0 }));
}

#[test]
fn owned_pair_keeps_key_and_value() {
    let owned = OwnedQueryPair::from(QueryPair::from("create", "true"));
    assert_eq!(owned, OwnedQueryPair { key: "create".into(), value: "true".into() });
}
