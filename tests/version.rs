use amuri::errors::AmuriError;
use amuri::version::Version;

#[test]
fn can_generate_version_from_str_current() {
    assert_eq!(Version::from_str("current"), Ok(Version::Current));
}

#[test]
fn can_generate_version_from_str_latest() {
    assert_eq!(Version::from_str("latest"), Ok(Version::Latest));
}

#[test]
fn can_generate_version_from_str_number() {
    assert_eq!(Version::from_str("0001"), Ok(Version::Number(1)));
}

#[test]
fn will_return_error_if_given_non_numeric_str() {
    assert_eq!(
        Version::from_str("fred"),
        Err(AmuriError::StrToIntError {
            target: "fred".into()
        })
    );
}

#[test]
fn next_is_a_version_keyword() {
    assert_eq!(Version::from_str("next"), Ok(Version::Next));
}

#[test]
fn version_numbers_are_sixteen_bits() {
    assert_eq!(Version::from_str("65535"), Ok(Version::Number(65535)));
    assert_eq!(
        Version::from_str("65536"),
        Err(AmuriError::StrToIntError { target: "65536".into() })
    );
    assert!(Version::from_str("").is_err());
    assert!(Version::from_str("12a").is_err());
    assert!(Version::from_str("Current").is_err());
}
