use spares::model::{NoteLink, Parser, Tag};
use spares::schema::{LinkedNote, ParserResponse, TagResponse};

#[test]
fn responses_carry_the_stored_fields() {
    let parser = Parser { id: 3, name: "typst".to_string() };
    let r = ParserResponse::new(&parser);
    assert_eq!((r.id, r.name.as_str()), (3, "typst"));
    let tag = Tag {
        id: 5,
        parent_id: Some(1),
        name: "math".to_string(),
        description: "d".to_string(),
        query: Some("q".to_string()),
        auto_delete: true,
    };
    let t = TagResponse::new(&tag);
    assert_eq!(t.id, 5);
    assert_eq!(t.parent_id, Some(1));
    assert_eq!(t.name, "math");
    assert_eq!(t.description, "d");
    assert_eq!(t.query, Some("q".to_string()));
    assert!(t.auto_delete);
    let link = LinkedNote::new(NoteLink {
        searched_keyword: "k".to_string(),
        linked_note_id: Some(9),
        matched_keyword: Some("m".to_string()),
    });
    assert_eq!(link.searched_keyword, "k");
    assert_eq!(link.linked_note_id, Some(9));
    assert_eq!(link.matched_keyword, Some("m".to_string()));
}
