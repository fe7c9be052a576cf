use ffvid::recursive_descent_parser::RecursiveDescentParser;

#[test]
fn next() {
    let values = vec![1, 2, 3];
    let mut parser = RecursiveDescentParser::new(&values);
    assert_eq!(parser.next(), Some(&1));
    assert_eq!(parser.next_or(0), Ok(&2));
    assert_eq!(parser.next(), Some(&3));
    assert_eq!(parser.next(), None);
    assert_eq!(parser.next_or(0), Err(0));
}

#[test]
fn peek() {
    let values = vec![1, 2, 3];
    let mut parser = RecursiveDescentParser::new(&values);
    assert_eq!(parser.peek(), Some(&1));
    assert_eq!(parser.peek_or(0), Ok(&1));

    let values = vec![1];
    let mut parser = RecursiveDescentParser::new(&values);
    assert_eq!(parser.peek(), Some(&1));
    assert_eq!(parser.next(), Some(&1), "Should not happen");
    assert_eq!(parser.peek(), None);
    assert_eq!(parser.peek_or(0), Err(0));
}

#[test]
fn tokens_left_counts_down() {
    let values = vec![10, 20];
    let mut parser = RecursiveDescentParser::new(&values);
    assert_eq!(parser.tokens_left(), 2);
    parser.next();
    assert_eq!(parser.tokens_left(), 1);
    parser.peek();
    assert_eq!(parser.tokens_left(), 1);
    parser.next();
    assert_eq!(parser.tokens_left(), 0);
}
