use textbuf::buffer::{Boundary, TextBuffer};
use textbuf::cursor::Cursor;
use textbuf::text::{
    assert_utf8_empty, IdProvider, LineEnding, NodeId, Position, TextCursor, TextNode, TextRange,
    MAX_COLUMN,
};

#[test]
fn test_line_break() {
    let text = "hello i am\n\n\nsomething interesting.\n";
    let mut ids = IdProvider::new();
    let node = TextNode::new_delimitered(text, &mut ids);
    let mut buffer = TextBuffer::new();
    buffer.push(node);
    println!("{}", buffer.render());
}

#[test]
fn four_terminators_make_height_four() {
    let text = "hello i am\n\n\nsomething interesting.\n";
    let mut ids = IdProvider::new();
    let node = TextNode::new_delimitered(text, &mut ids);
    let dims = node.dimensions();
    assert_eq!(dims.height, 4);
    assert_eq!(dims.width, 22);
    assert_eq!(dims.origin.line, 0);
    assert_eq!(dims.origin.column, 0);
    let lines = node.lines();
    assert_eq!(
        lines,
        vec![
            "hello i am\n".to_string(),
            "\n".to_string(),
            "\n".to_string(),
            "something interesting.\n".to_string(),
        ]
    );
    let mut buffer = TextBuffer::new();
    buffer.push(node);
    assert_eq!(buffer.render(), text);
}

#[test]
fn no_terminator_means_empty_extent() {
    let mut ids = IdProvider::new();
    let node = TextNode::new_delimitered("plenty of content, no terminator", &mut ids);
    assert_eq!(node.dimensions().height, 0);
    assert_eq!(node.dimensions().width, 0);
    assert!(node.lines().is_empty());

    let empty = TextNode::new_delimitered("", &mut ids);
    assert_eq!(empty.dimensions().height, 0);
    assert_eq!(empty.dimensions().width, 0);
}

#[test]
fn union_and_intersect_extents_commute() {
    let a = Boundary { origin: Position { line: 1, column: 2 }, width: 3, height: 9 };
    let b = Boundary { origin: Position { line: 7, column: 8 }, width: 5, height: 4 };

    let u_ab = a.union(b);
    let u_ba = b.union(a);
    assert_eq!(u_ab.width, 5);
    assert_eq!(u_ab.height, 9);
    assert_eq!(u_ba.width, u_ab.width);
    assert_eq!(u_ba.height, u_ab.height);
    assert_eq!(u_ab.origin.line, 1);
    assert_eq!(u_ab.origin.column, 2);
    assert_eq!(u_ba.origin.line, 7);
    assert_eq!(u_ba.origin.column, 8);

    let i_ab = a.intersect(b);
    let i_ba = b.intersect(a);
    assert_eq!(i_ab.width, 3);
    assert_eq!(i_ab.height, 4);
    assert_eq!(i_ba.width, i_ab.width);
    assert_eq!(i_ba.height, i_ab.height);
    assert_eq!(i_ab.origin.line, 1);

    assert!(!a.contains(b));
    assert!(!b.contains(a));
    let roomy = Boundary { origin: Position { line: 9, column: 9 }, width: 9, height: 9 };
    assert!(roomy.contains(a));
    assert_eq!(*roomy.origin(), Position { line: 9, column: 9 });
}

#[test]
fn default_boundary_is_zero_sized() {
    let d = Boundary::default();
    assert_eq!(d.width, 0);
    assert_eq!(d.height, 0);
    assert_eq!(d.origin.line, 0);
    assert_eq!(d.origin.column, 0);
}

#[test]
fn position_equality_is_not_injective() {
    let wide = Position { line: 1, column: 300 };
    let narrow = Position { line: 1, column: 44 };
    assert_eq!(wide.hash(), narrow.hash());
    assert!(wide == narrow);
    assert_ne!(wide.column, narrow.column);
    assert_eq!(narrow.hash(), (1u32 << 24) | 44);
}

#[test]
fn position_ordering_goes_by_packed_key() {
    let low = Position { line: 0, column: 300 };
    let high = Position { line: 1, column: 0 };
    assert!(low < high);
    assert!(!(high < low));
    let same_key = Position { line: 1, column: 300 + 256 };
    let other = Position { line: 1, column: 300 };
    assert!(!(same_key < other) && !(other < same_key));
}

#[test]
fn position_clamp_and_arithmetic() {
    let p = Position::clamp(Position { line: 5, column: 300 });
    assert_eq!(p.line, 5);
    assert_eq!(p.column, MAX_COLUMN);
    let q = Position::clamp(Position { line: 5, column: 7 });
    assert_eq!(q.column, 7);

    let moved = Position { line: 2, column: 3 }.add((10, 20));
    assert_eq!(moved.line, 12);
    assert_eq!(moved.column, 23);

    let mut walked = Position { line: 1, column: 1 };
    walked.add_assign((2, 5));
    assert_eq!(walked.line, 3);
    assert_eq!(walked.column, 6);

    let from_pair = Position::from((3, 4));
    assert_eq!(from_pair.line, 3);
    assert_eq!(from_pair.column, 4);

    let origin = Position::default();
    assert_eq!(origin.line, 0);
    assert_eq!(origin.column, 0);
}

#[test]
fn pushing_two_nodes_unions_their_extents() {
    let mut ids = IdProvider::new();
    let n1 = TextNode::new_delimitered("a\n", &mut ids);
    let n2 = TextNode::new_delimitered("hello\nworld\n", &mut ids);
    let expected = n1.dimensions().union(n2.dimensions());
    let mut buffer = TextBuffer::new();
    buffer.push(n1);
    buffer.push(n2);
    assert_eq!(buffer.boundary(), expected);
    assert_eq!(buffer.boundary().width, 5);
    assert_eq!(buffer.boundary().height, 2);
    assert_eq!(buffer.render(), "a\nhello\nworld\n");
}

#[test]
fn single_line_round_trip() {
    let mut ids = IdProvider::new();
    let node = TextNode::new_delimitered("abc\n", &mut ids);
    assert_eq!(node.lines(), vec!["abc\n".to_string()]);
    assert_eq!(node.dimensions().height, 1);
    assert_eq!(node.dimensions().width, 3);
}

#[test]
fn lines_survive_non_ascii_text() {
    let mut ids = IdProvider::new();
    let node = TextNode::new_delimitered("h\u{e9}llo\n\u{1f600}\n", &mut ids);
    assert_eq!(
        node.lines(),
        vec!["h\u{e9}llo\n".to_string(), "\u{1f600}\n".to_string()]
    );
    assert_eq!(node.dimensions().height, 2);
    // The supplementary-plane character takes two code units.
    assert_eq!(node.dimensions().width, 5);
}

#[test]
fn cursor_seeks_forward_and_refuses_backward() {
    let mut ids = IdProvider::new();
    let node = TextNode::new_delimitered("ab", &mut ids);
    let mut cursor = TextCursor::new(&node);
    assert_eq!(cursor.position().line, 0);
    assert_eq!(cursor.position().column, 0);

    let traversed = cursor.seek(&Position { line: 0, column: 2 });
    assert_eq!(traversed, Some(&[97u16, 98u16][..]));
    assert_eq!(cursor.position().line, 0);
    assert_eq!(cursor.position().column, 2);

    // A backward seek cannot be satisfied: the current column is the lower
    // bound of the traversed slice. The cursor stays where it was.
    let backward = cursor.seek(&Position { line: 0, column: 1 });
    assert_eq!(backward, None);
    assert_eq!(cursor.position().column, 2);

    // Neither can a seek past the stored units.
    let beyond = cursor.seek(&Position { line: 0, column: 5 });
    assert_eq!(beyond, None);
    assert_eq!(cursor.position().column, 2);
}

#[test]
fn identities_are_issued_in_order() {
    let mut ids = IdProvider::new();
    let first = NodeId::new(&mut ids);
    let second = NodeId::new(&mut ids);
    assert_eq!(first.value(), 1);
    assert_eq!(second.value(), 2);
    assert_ne!(first, second);
}

#[test]
fn crlf_text_keeps_carriage_returns() {
    let mut ids = IdProvider::new();
    let node = TextNode::new_delimitered("ab\r\ncd\r\n", &mut ids);
    assert_eq!(node.dimensions().height, 2);
    assert_eq!(node.dimensions().width, 3);
    assert_eq!(
        node.lines(),
        vec!["ab\r\n".to_string(), "cd\r\n".to_string()]
    );
}

#[test]
fn nodes_compare_by_identity_not_content() {
    let mut ids = IdProvider::new();
    let twin_a = TextNode::new_delimitered("same\n", &mut ids);
    let twin_b = TextNode::new_delimitered("same\n", &mut ids);
    assert!(twin_a != twin_b);
    assert!(twin_a < twin_b);
    assert!(!(twin_b < twin_a));
}

#[test]
fn range_units_counts_span() {
    let range = TextRange { start: 2, end: 5 };
    assert_eq!(range.units(), 3);
    let point = TextRange { start: 4, end: 4 };
    assert_eq!(point.units(), 0);
}

#[test]
fn whitespace_detection_over_bytes() {
    assert!(assert_utf8_empty(b" \t\r\n"));
    assert!(assert_utf8_empty(b""));
    assert!(assert_utf8_empty(&[0x0b, 0x0c, 0x85, 0xa0]));
    assert!(!assert_utf8_empty(b" a "));
}

#[test]
fn line_ending_encodings() {
    assert_eq!(LineEnding::Crlf.as_utf16(), [13u16, 10u16]);
    assert_eq!(LineEnding::Lf.as_utf16(), [0u16, 10u16]);
    assert_eq!(LineEnding::default(), LineEnding::Crlf);
    assert_ne!(LineEnding::Crlf, LineEnding::Lf);
    assert_eq!(LineEnding::Crlf.text(), "\r\n");
    assert_eq!(LineEnding::Lf.text(), "\n");

    // The line-feed form only constrains the second slot.
    assert!(LineEnding::Lf.matches_units(&[13u16, 10u16]));
    assert!(LineEnding::Lf.matches_units(&[77u16, 10u16]));
    assert!(!LineEnding::Lf.matches_units(&[10u16, 13u16]));
    assert!(LineEnding::Crlf.matches_units(&[13u16, 10u16]));
    assert!(!LineEnding::Crlf.matches_units(&[77u16, 10u16]));
}

#[test]
fn render_concatenates_nodes_in_creation_order() {
    let mut ids = IdProvider::new();
    let n1 = TextNode::new_delimitered("first\n", &mut ids);
    let n2 = TextNode::new_delimitered("second\n", &mut ids);
    let n3 = TextNode::new_delimitered("third\n", &mut ids);
    let mut buffer = TextBuffer::new();
    // Pushed out of creation order; identity order wins.
    buffer.push(n2);
    buffer.push(n3);
    buffer.push(n1);
    assert_eq!(buffer.render(), "first\nsecond\nthird\n");
    assert_eq!(buffer.boundary().width, 6);
    assert_eq!(buffer.boundary().height, 1);
}

#[test]
fn trailing_text_without_terminator_is_not_a_line() {
    let mut ids = IdProvider::new();
    let node = TextNode::new_delimitered("kept\ndropped tail", &mut ids);
    assert_eq!(node.lines(), vec!["kept\n".to_string()]);
    assert_eq!(node.dimensions().height, 1);
    assert_eq!(node.dimensions().width, 4);
    let mut buffer = TextBuffer::new();
    buffer.push(node);
    assert_eq!(buffer.render(), "kept\n");
}
