use obj_translator::error::Error;
use obj_translator::line::Triple;
use obj_translator::metadata::read_origin;

fn triple(x: &str, y: &str, z: &str) -> Triple {
    Triple { x: x.as_bytes().to_vec(), y: y.as_bytes().to_vec(), z: z.as_bytes().to_vec() }
}

#[test]
fn an_origin_of_three_components() {
    let record = read_origin(b"498521.128782858,389878.045102646,545.188000000").unwrap();
    assert_eq!(record.origin, triple("498521.128782858", "389878.045102646", "545.188000000"));
    assert!(record.extra.is_empty());
}

#[test]
fn the_components_read_as_the_numbers_written() {
    let record = read_origin(b"498521.128782858,389878.045102646,545.188000000").unwrap();
    let x: f64 = std::str::from_utf8(&record.origin.x).unwrap().parse().unwrap();
    let y: f64 = std::str::from_utf8(&record.origin.y).unwrap().parse().unwrap();
    let z: f64 = std::str::from_utf8(&record.origin.z).unwrap().parse().unwrap();
    assert_eq!((x, y, z), (498521.128782858, 389878.045102646, 545.188));
}

#[test]
fn components_after_the_third_are_handed_back() {
    let record = read_origin(b"1,2,3,4,five").unwrap();
    assert_eq!(record.origin, triple("1", "2", "3"));
    assert_eq!(record.extra, vec![b"4".to_vec(), b"five".to_vec()]);
}

#[test]
fn components_are_not_trimmed() {
    let record = read_origin(b" 1, 2 ,3\n").unwrap();
    assert_eq!(record.origin, triple(" 1", " 2 ", "3\n"));
}

#[test]
fn an_origin_of_two_components_is_malformed() {
    assert_eq!(read_origin(b"1.0,2.0"), Err(Error::MalformedMetadata));
}

#[test]
fn an_empty_origin_is_malformed() {
    assert_eq!(read_origin(b""), Err(Error::MalformedMetadata));
    assert_eq!(read_origin(b"12.5"), Err(Error::MalformedMetadata));
}

#[test]
fn empty_components_count() {
    let record = read_origin(b",,").unwrap();
    assert_eq!(record.origin, triple("", "", ""));
    assert!(record.extra.is_empty());
}
