use chum::{
    convert_numeric_distribution, convert_operation_distribution, expand_distribution,
    parse_human, ChumError, Operation,
};

#[test]
fn test_parse_human() -> Result<(), ChumError> {
    assert_eq!(parse_human("4k")?, 4096);
    assert_eq!(parse_human("1M")?, 1048576);
    assert_eq!(parse_human("1g")?, 1073741824);
    assert_eq!(parse_human("1T")?, 1099511627776);

    assert_eq!(
        parse_human("1Y"),
        Err(ChumError::new(
            "provided value \
             must be a positive number with a unit suffix"
        ))
    );
    assert_eq!(
        parse_human("1024b"),
        Err(ChumError::new(
            "provided value \
             must be a positive number with a unit suffix"
        ))
    );
    assert_eq!(
        parse_human("1234"),
        Err(ChumError::new(
            "provided value \
             must be a positive number with a unit suffix"
        ))
    );

    assert_eq!(
        parse_human("-1G"),
        Err(ChumError::new(
            "provided value \
             must be a positive number with a unit suffix"
        ))
    );
    assert_eq!(
        parse_human("T1"),
        Err(ChumError::new(
            "provided value \
             must be a positive number with a unit suffix"
        ))
    );
    Ok(())
}

#[test]
fn parse_human_zero_and_overflow() {
    assert_eq!(parse_human("0"), Ok(0));
    assert_eq!(
        parse_human("10000000000T"),
        Err(ChumError::new("provided value is too large"))
    );
    assert_eq!(
        parse_human("99999999999999999999999k"),
        Err(ChumError::new("provided value is too large"))
    );
    assert_eq!(parse_human("16777215T"), Ok(16777215 * 1099511627776));
    assert_eq!(
        parse_human("16777216T"),
        Err(ChumError::new("provided value is too large"))
    );
    assert!(parse_human("").is_err());
    assert!(parse_human("k").is_err());
}

#[test]
fn test_expand_distribution() -> Result<(), ChumError> {
    assert_eq!(expand_distribution("1,2,3")?, vec!["1", "2", "3"]);
    assert_eq!(
        expand_distribution("1:2,2:2,3:1")?,
        vec!["1", "1", "2", "2", "3"]
    );
    assert_eq!(expand_distribution("hello:1")?, vec!["hello"]);

    assert_eq!(
        expand_distribution("1:2:3"),
        Err(ChumError::new("too many multiples in token '1:2:3'"))
    );
    assert_eq!(
        expand_distribution("1:cat"),
        Err(ChumError::new("failed to parse 'cat' as a number"))
    );

    Ok(())
}

#[test]
fn expand_edge_cases() {
    assert_eq!(expand_distribution("r:2,w:2").unwrap(), vec!["r", "r", "w", "w"]);
    assert_eq!(expand_distribution("a:0,b").unwrap(), vec!["b"]);
    assert_eq!(expand_distribution("").unwrap(), vec![""]);
    assert_eq!(expand_distribution("x:+2").unwrap(), vec!["x", "x"]);
    assert_eq!(
        expand_distribution("x:"),
        Err(ChumError::new("failed to parse '' as a number"))
    );
    assert_eq!(
        expand_distribution("ok,a:1:2,b:z"),
        Err(ChumError::new("too many multiples in token 'a:1:2'"))
    );
}

#[test]
fn test_convert_numeric_distribution() -> Result<(), ChumError> {
    assert_eq!(
        convert_numeric_distribution(expand_distribution("1k,2k,3k")?)?,
        vec![1024, 2048, 3072]
    );

    assert_eq!(
        convert_numeric_distribution(expand_distribution("1,2,3")?),
        Err(ChumError::new(
            "provided value must be a positive number \
             with a unit suffix"
        ))
    );

    assert_eq!(
        convert_numeric_distribution(expand_distribution("a,b,c")?),
        Err(ChumError::new(
            "provided value must be a positive number \
             with a unit suffix"
        ))
    );

    Ok(())
}

#[test]
fn convert_operations() {
    let ops = convert_operation_distribution(expand_distribution("r:2,w").unwrap()).unwrap();
    assert_eq!(ops, vec![Operation::Read, Operation::Read, Operation::Write]);
    assert_eq!(
        convert_operation_distribution(vec!["r".to_string(), "d".to_string()]),
        Err(ChumError::new("invalid operation requested"))
    );
    assert_eq!(Operation::Write.name(), "write");
}
