use comma::characters::ParserData;

#[test]
fn cursor_walks_the_input() {
    let mut pd = ParserData::new(&String::from("ab"));
    assert!(pd.not_empty());
    assert_eq!(pd.peek().unwrap(), 'a');
    assert_eq!(pd.peek().unwrap(), 'a');
    assert_eq!(pd.eat().unwrap(), 'a');
    assert_eq!(pd.peek().unwrap(), 'b');
    assert_eq!(pd.eat().unwrap(), 'b');
    assert!(!pd.not_empty());
    assert!(pd.peek().is_err());
    assert!(pd.eat().is_err());
}

#[test]
fn tokens_accumulate_in_order() {
    let mut pd = ParserData::new(&String::from("xy"));
    pd.new_token();
    pd.push('a');
    pd.eat_and_push().unwrap();
    pd.new_token();
    pd.eat_and_push().unwrap();
    assert!(pd.eat_and_push().is_err());
    assert_eq!(pd.get_result(), &vec![String::from("ax"), String::from("y")]);
}

#[test]
fn empty_input_has_nothing_to_eat() {
    let mut pd = ParserData::new(&String::from(""));
    assert!(!pd.not_empty());
    assert!(pd.eat().is_err());
    assert_eq!(pd.get_result(), &Vec::<String>::new());
}
