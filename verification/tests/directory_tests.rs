use exercises::directory::Directory;

fn s(text: &str) -> String {
    String::from(text)
}

#[test]
fn department_query_returns_exactly_its_members() {
    let mut book = Directory::new();
    book.add(s("Sally"), s("Engineering"));
    book.add(s("Amir"), s("Sales"));
    assert_eq!(book.department_list(&s("Engineering")), vec![s("Sally")]);
    assert_eq!(book.department_list(&s("Sales")), vec![s("Amir")]);
}

#[test]
fn full_list_groups_by_department() {
    let mut book = Directory::new();
    book.add(s("Sally"), s("Engineering"));
    book.add(s("Amir"), s("Sales"));
    let all = book.full_list();
    assert_eq!(
        all,
        vec![
            (s("Engineering"), vec![s("Sally")]),
            (s("Sales"), vec![s("Amir")]),
        ]
    );
}

#[test]
fn readding_a_name_overwrites_its_department() {
    let mut book = Directory::new();
    book.add(s("Sally"), s("Engineering"));
    book.add(s("Amir"), s("Sales"));
    book.add(s("Sally"), s("Marketing"));
    assert_eq!(book.department_list(&s("Engineering")), Vec::<String>::new());
    assert_eq!(book.department_list(&s("Marketing")), vec![s("Sally")]);
    assert_eq!(book.department_list(&s("Sales")), vec![s("Amir")]);
    assert_eq!(book.len(), 2);
    assert_eq!(book.department_of(&s("Sally")), Some(s("Marketing")));
    // the old department is gone from the grouped listing as well
    assert_eq!(
        book.full_list(),
        vec![
            (s("Marketing"), vec![s("Sally")]),
            (s("Sales"), vec![s("Amir")]),
        ]
    );
}

#[test]
fn member_lists_are_alphabetical() {
    let mut book = Directory::new();
    book.add(s("Zoe"), s("Engineering"));
    book.add(s("Amir"), s("Engineering"));
    book.add(s("Mona"), s("Engineering"));
    assert_eq!(
        book.department_list(&s("Engineering")),
        vec![s("Amir"), s("Mona"), s("Zoe")]
    );
}

#[test]
fn departments_keep_first_seen_order() {
    let mut book = Directory::new();
    book.add(s("Zoe"), s("Sales"));
    book.add(s("Amir"), s("Engineering"));
    book.add(s("Bob"), s("Sales"));
    let all = book.full_list();
    assert_eq!(
        all,
        vec![
            (s("Sales"), vec![s("Bob"), s("Zoe")]),
            (s("Engineering"), vec![s("Amir")]),
        ]
    );
}

#[test]
fn empty_directory_has_no_departments() {
    let book = Directory::new();
    assert_eq!(book.len(), 0);
    assert_eq!(book.full_list(), Vec::<(String, Vec<String>)>::new());
    assert_eq!(book.department_list(&s("Sales")), Vec::<String>::new());
    assert_eq!(book.department_of(&s("Sally")), None);
}

#[test]
fn unknown_department_is_empty() {
    let mut book = Directory::new();
    book.add(s("Sally"), s("Engineering"));
    assert_eq!(book.department_list(&s("Pottery")), Vec::<String>::new());
}
