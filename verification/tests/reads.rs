use ngs::derive::instrument::reads::split_segments;
use ngs::derive::instrument::reads::IlluminaReadName;

#[test]
pub fn test_parse_illumina_1_4_fmt() {
    let result = "MACHINE:0:1234:55555:66666".parse::<IlluminaReadName>();
    assert!(result.is_ok());

    let read_name = result.unwrap();
    assert_eq!(read_name.instrument_name, "MACHINE");
    assert_eq!(read_name.run, None);
    assert_eq!(read_name.flowcell, None);
    assert_eq!(read_name.lane, "0");
    assert_eq!(read_name.tile, "1234");
    assert_eq!(read_name.x, "55555");
    assert_eq!(read_name.y, "66666");
}

#[test]
pub fn test_parse_illumina_1_8_fmt() {
    let result = "MACHINE:0:A0A00AAAA:0:1234:55555:66666".parse::<IlluminaReadName>();
    assert!(result.is_ok());

    let read_name = result.unwrap();
    assert_eq!(read_name.instrument_name, "MACHINE");
    assert_eq!(read_name.run, Some("0".into()));
    assert_eq!(read_name.flowcell, Some("A0A00AAAA".into()));
    assert_eq!(read_name.lane, "0");
    assert_eq!(read_name.tile, "1234");
    assert_eq!(read_name.x, "55555");
    assert_eq!(read_name.y, "66666");
}

#[test]
pub fn test_parse_failure() {
    let result = "MACHINE:0:".parse::<IlluminaReadName>();
    assert!(result.is_err());
}

#[test]
fn test_split_segments_keeps_empty_segments() {
    assert_eq!(split_segments("", ':'), vec!["".to_string()]);
    assert_eq!(split_segments(":", ':'), vec!["".to_string(), "".to_string()]);
    assert_eq!(
        split_segments("a::b:", ':'),
        vec!["a".to_string(), "".to_string(), "b".to_string(), "".to_string()]
    );
    assert_eq!(split_segments("abc", ':'), vec!["abc".to_string()]);
}

#[test]
fn test_split_segments_counts_characters_not_bytes() {
    assert_eq!(
        split_segments("é:ü", ':'),
        vec!["é".to_string(), "ü".to_string()]
    );
}

#[test]
fn test_parse_wrong_segment_counts() {
    assert!(IlluminaReadName::parse("").is_err());
    assert!(IlluminaReadName::parse("a:b:c:d").is_err());
    assert!(IlluminaReadName::parse("a:b:c:d:e:f").is_err());
    assert!(IlluminaReadName::parse("a:b:c:d:e:f:g:h").is_err());
    let empty = IlluminaReadName::parse("::::").unwrap();
    assert_eq!(empty.instrument_name, "");
    assert_eq!(empty.y, "");
}
