use shardingite::parser::Parser;
use shardingite::rewriter::ReWriter;

#[test]
fn rewrite_strips_limit_and_offset() {
    let parsed =
        Parser::parse("SELECT id, name FROM user WHERE id >= 2 ORDER BY id ASC LIMIT 3 OFFSET 1")
            .unwrap();
    let rewritten = ReWriter::rewrite(&parsed);
    let reparsed = Parser::parse(rewritten.as_str()).unwrap();
    let q = Parser::get_query_from_ast(&reparsed).unwrap();
    assert!(q.limit.is_none());
    let ob = q.order_by.unwrap();
    assert_eq!(ob.column_index, 0);
    assert!(ob.is_asc);
    assert!(rewritten.contains("WHERE"));
    assert!(!rewritten.contains("LIMIT"));
    assert!(!rewritten.contains("OFFSET"));
}

#[test]
fn rewrite_is_idempotent_on_its_own_output() {
    let sql = "SELECT id, name FROM user WHERE id >= 2 ORDER BY id DESC LIMIT 3 OFFSET 1";
    let once = ReWriter::rewrite(&Parser::parse(sql).unwrap());
    let twice = ReWriter::rewrite(&Parser::parse(once.as_str()).unwrap());
    assert_eq!(once, twice);
}

#[test]
fn rewrite_keeps_a_plain_select() {
    let sql = "SELECT id FROM user WHERE id > 5";
    let once = ReWriter::rewrite(&Parser::parse(sql).unwrap());
    let twice = ReWriter::rewrite(&Parser::parse(once.as_str()).unwrap());
    assert_eq!(once, twice);
    assert!(once.contains("WHERE"));
}

#[test]
fn rewrite_leaves_an_insert_alone() {
    let sql = "INSERT INTO user (id, name) VALUES (1, 'a')";
    let rewritten = ReWriter::rewrite(&Parser::parse(sql).unwrap());
    assert!(rewritten.contains("VALUES"));
    let reparsed = Parser::parse(rewritten.as_str()).unwrap();
    let again = ReWriter::rewrite(&reparsed);
    assert_eq!(rewritten, again);
}
