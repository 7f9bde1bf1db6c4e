use object_group_decoder::exguid::ExGuid;
use object_group_decoder::section::ObjectSpace;
use object_group_decoder::section::SectionObject;
use object_group_decoder::section::parse_content;
use object_group_decoder::section::parse_metadata;
use object_group_decoder::section::parse_section;

fn id(n: u128) -> ExGuid {
    ExGuid { guid: n, value: 1 }
}

fn sample_space() -> ObjectSpace {
    ObjectSpace {
        content_root: Some(id(1)),
        metadata_root: Some(id(2)),
        objects: vec![
            (
                id(1),
                SectionObject { display_name: None, page_series: vec![id(10), id(11)] },
            ),
            (
                id(2),
                SectionObject {
                    display_name: Some(String::from("notes")),
                    page_series: Vec::new(),
                },
            ),
        ],
    }
}

#[test]
fn section_takes_name_and_page_series_from_roots() {
    let space = sample_space();
    let section = parse_section(&space).unwrap();
    assert_eq!(section.display_name, Some(String::from("notes")));
    assert_eq!(section.page_series, vec![id(10), id(11)]);
}

#[test]
fn content_and_metadata_resolve_their_roots() {
    let space = sample_space();
    assert_eq!(parse_content(&space).unwrap().page_series, vec![id(10), id(11)]);
    assert_eq!(
        parse_metadata(&space).unwrap().display_name,
        Some(String::from("notes"))
    );
}

#[test]
fn missing_roots_give_no_section() {
    let mut space = sample_space();
    space.content_root = None;
    assert!(parse_section(&space).is_none());
    let mut space = sample_space();
    space.metadata_root = Some(id(99));
    assert!(parse_section(&space).is_none());
}

#[test]
fn lookup_returns_first_match() {
    let space = ObjectSpace {
        content_root: None,
        metadata_root: None,
        objects: vec![
            (id(5), SectionObject { display_name: Some(String::from("a")), page_series: Vec::new() }),
            (id(5), SectionObject { display_name: Some(String::from("b")), page_series: Vec::new() }),
        ],
    };
    let found = space.get_object(id(5)).unwrap();
    assert_eq!(found.display_name, Some(String::from("a")));
    assert!(space.get_object(id(6)).is_none());
}
