use xml_split::error::SplitError;
use xml_split::nesting::NestingSpec;
use xml_split::source::{ParserState, XmlSource};
use xml_split::splitter::{split, split_document, XmlCopySplitter};

fn run(src: &str, nesting: &str, count: u32) -> Result<Vec<String>, SplitError> {
    let chunks = split_document(src.as_bytes().to_vec(), &nesting.to_string(), count)?;
    Ok(chunks.into_iter().map(|c| String::from_utf8(c).unwrap()).collect())
}

#[test]
fn three_items_two_per_chunk() {
    let src = r#"<?xml version="1.0"?><rss><item>A</item><item>B</item><item>C</item></rss>"#;
    let chunks = run(src, "rss/item", 2).unwrap();
    assert_eq!(
        chunks,
        vec![
            r#"<?xml version="1.0"?><rss><item>A</item><item>B</item></rss>"#.to_string(),
            r#"<?xml version="1.0"?><rss><item>C</item></rss>"#.to_string(),
        ]
    );
}

#[test]
fn whitespace_travels_with_following_item() {
    let src = "<r><item>A</item>\n  <item>B</item></r>";
    let chunks = run(src, "r/item", 1).unwrap();
    assert_eq!(
        chunks,
        vec!["<r><item>A</item></r>".to_string(), "<r>\n  <item>B</item></r>".to_string()]
    );
}

#[test]
fn no_items_no_chunks() {
    let src = "<root><other>x</other></root>";
    assert_eq!(run(src, "root/item", 3).unwrap(), Vec::<String>::new());
    assert_eq!(run(src, "root/item", 0).unwrap(), Vec::<String>::new());
}

#[test]
fn zero_count_gives_one_chunk() {
    let src = "<r><item>1</item><item>2</item><item>3</item></r>";
    let chunks = run(src, "r/item", 0).unwrap();
    assert_eq!(chunks, vec![src.to_string()]);
}

#[test]
fn chunk_count_is_ceiling() {
    let mut src = String::from("<feed>\n");
    for i in 0..7 {
        src.push_str(&format!("  <entry id=\"{}\">v{}</entry>\n", i, i));
    }
    src.push_str("</feed>\n");
    let chunks = run(&src, "feed/entry", 3).unwrap();
    assert_eq!(chunks.len(), 3);
    assert_eq!(run(&src, "feed/entry", 7).unwrap().len(), 1);
    assert_eq!(run(&src, "feed/entry", 1).unwrap().len(), 7);
    assert_eq!(run(&src, "feed/entry", 100).unwrap().len(), 1);
    for c in &chunks {
        assert!(c.starts_with("<feed>"));
        assert!(c.ends_with("\n</feed>\n"));
    }
    assert_eq!(
        chunks[2],
        "<feed>\n  \n  <entry id=\"6\">v6</entry>\n</feed>\n".to_string()
    );
}

#[test]
fn header_and_footer_are_shared() {
    let src = "<?xml version='1.0' encoding='UTF-8'?>\n<!-- c -->\n<list a = 'b'>\n <x>1</x><x>2</x><x>3</x>\n <tail/>\n</list>";
    let chunks = run(src, "list/x", 2).unwrap();
    let header = "<?xml version='1.0' encoding='UTF-8'?>\n<!-- c -->\n<list a = 'b'>\n ";
    let footer = "\n <tail/>\n</list>";
    assert_eq!(chunks.len(), 2);
    assert_eq!(chunks[0], format!("{}<x>1</x><x>2</x>{}", header, footer));
    assert_eq!(chunks[1], format!("{}<x>3</x>{}", header, footer));
}

#[test]
fn nested_items_of_the_same_name_stay_whole() {
    let src = "<r><item><item>in</item></item><item>B</item></r>";
    let chunks = run(src, "r/item", 1).unwrap();
    assert_eq!(
        chunks,
        vec!["<r><item><item>in</item></item></r>".to_string(), "<r><item>B</item></r>".to_string()]
    );
}

#[test]
fn empty_element_is_not_an_item_start() {
    let src = "<r><item/><item>A</item></r>";
    let chunks = run(src, "r/item", 1).unwrap();
    assert_eq!(chunks, vec!["<r><item/><item>A</item></r>".to_string()]);
}

#[test]
fn deterministic_output() {
    let src = "<r>\t<i a=\"1\">x</i>\r\n<i>y</i> <i>z</i></r>";
    assert_eq!(run(src, "r/i", 2).unwrap(), run(src, "r/i", 2).unwrap());
}

#[test]
fn unclosed_item_is_malformed() {
    let src = "<r><item>A</r>";
    assert!(matches!(run(src, "r/item", 1), Err(SplitError::MalformedSource(_))));
}

#[test]
fn bad_nesting_is_rejected() {
    assert_eq!(run("<r><item/></r>", "item", 1), Err(SplitError::InvalidNestingSpec));
    assert_eq!(run("<r><item/></r>", "///", 1), Err(SplitError::InvalidNestingSpec));
}

#[test]
fn split_with_parsed_nesting() {
    let spec = NestingSpec::parse(&"/rss/item/".to_string()).unwrap();
    assert_eq!(spec.item_tag, "item");
    let chunks = split(b"<rss><item>A</item></rss>".to_vec(), 5, &spec).unwrap();
    assert_eq!(chunks, vec![b"<rss><item>A</item></rss>".to_vec()]);
}

#[test]
fn source_classifies_tokens() {
    let mut source = XmlSource::new(b"<r>t<item>A</item><item>B</item></r>".to_vec(), b"item".to_vec());
    assert_eq!(source.next(), Ok(ParserState::Node));
    assert_eq!(source.current_pos, 3);
    assert_eq!(source.next(), Ok(ParserState::Node));
    assert_eq!(source.current_pos, 4);
    assert_eq!(source.next(), Ok(ParserState::Header));
    assert_eq!(source.current_pos, 10);
    assert_eq!(source.consume_item(), Ok(()));
    assert_eq!(source.current_pos, 18);
    assert_eq!(source.extract(4, 18), b"<item>A</item>".to_vec());
    assert_eq!(source.next(), Ok(ParserState::Item));
    assert_eq!(source.consume_item(), Ok(()));
    assert_eq!(source.next(), Ok(ParserState::Node));
    assert_eq!(source.next(), Ok(ParserState::Footer));
}

#[test]
fn splitter_runs_step_by_step() {
    let spec = NestingSpec::parse(&"a/b".to_string()).unwrap();
    let mut splitter = XmlCopySplitter::new(b"<a><b>1</b><b>2</b></a>".to_vec(), 1, &spec);
    assert_eq!(splitter.run(), Ok(()));
    assert_eq!(splitter.xml_header, b"<a>".to_vec());
    assert_eq!(
        splitter.into_chunks(),
        vec![b"<a><b>1</b></a>".to_vec(), b"<a><b>2</b></a>".to_vec()]
    );
}

#[test]
fn unterminated_comment_is_malformed() {
    let src = "<r><item>A</item><!-- never closed</r>";
    assert!(matches!(run(src, "r/item", 1), Err(SplitError::MalformedSource(_))));
}

#[test]
fn trailing_text_goes_to_the_footer() {
    let src = "<r><item>A</item><item>B</item></r>\n\n";
    let chunks = run(src, "r/item", 1).unwrap();
    assert_eq!(
        chunks,
        vec!["<r><item>A</item></r>\n\n".to_string(), "<r><item>B</item></r>\n\n".to_string()]
    );
}

#[test]
fn unbalanced_tags_inside_an_item_are_malformed() {
    let src = "<r><item>A</x></item></r>";
    assert!(matches!(run(src, "r/item", 1), Err(SplitError::MalformedSource(_))));
}

#[test]
fn unbalanced_tags_outside_items_are_malformed() {
    let src = "<r><a></b><item>A</item></r>";
    assert!(matches!(run(src, "r/item", 1), Err(SplitError::MalformedSource(_))));
}

#[test]
fn byte_order_mark_inside_an_item_keeps_boundaries() {
    let src = "<r><item>\u{FEFF}A</item><item>B</item></r>";
    let chunks = run(src, "r/item", 1).unwrap();
    assert_eq!(
        chunks,
        vec!["<r><item>\u{FEFF}A</item></r>".to_string(), "<r><item>B</item></r>".to_string()]
    );
}

#[test]
fn byte_order_mark_in_text_keeps_boundaries() {
    let src = "<r><item>A</item>\u{FEFF}x<item>B</item>\u{FEFF}</r>";
    let chunks = run(src, "r/item", 1).unwrap();
    assert_eq!(
        chunks,
        vec![
            "<r><item>A</item>\u{FEFF}</r>".to_string(),
            "<r>\u{FEFF}x<item>B</item>\u{FEFF}</r>".to_string()
        ]
    );
}

#[test]
fn leading_byte_order_mark_belongs_to_the_header() {
    let src = "\u{FEFF}<r>\n<item>A</item><item>B</item></r>";
    let chunks = run(src, "r/item", 1).unwrap();
    assert_eq!(
        chunks,
        vec![
            "\u{FEFF}<r>\n<item>A</item></r>".to_string(),
            "\u{FEFF}<r>\n<item>B</item></r>".to_string()
        ]
    );
}
