use kitchen::title;

#[test]
fn extract_name_and_year() {
    assert_eq!(
        title::extract_name_and_year("Kenji Mizoguchi: The Life of a Film Director (Aru eiga-kantoku no shogai) (1975)"),
        ("Kenji Mizoguchi: The Life of a Film Director".to_owned(), Some(1975))
    );
    assert_eq!(
        title::extract_name_and_year("Misérables, Les (1995)"),
        ("Les Misérables".to_owned(), Some(1995))
    );
    assert_eq!(
        title::extract_name_and_year("Honey, I Shrunk the Kids (1989)"),
        ("Honey, I Shrunk the Kids".to_owned(), Some(1989))
    );
}

#[test]
fn title_without_year_is_trimmed() {
    assert_eq!(title::extract_name_and_year("  Heat  "), ("Heat".to_owned(), None));
    assert_eq!(title::extract_name_and_year(""), ("".to_owned(), None));
}

#[test]
fn whitespace_runs_collapse() {
    assert_eq!(title::extract_name_and_year("Blade   Runner (1982)"), ("Blade Runner".to_owned(), Some(1982)));
}

#[test]
fn later_groups_are_ignored_after_the_year() {
    assert_eq!(title::extract_name_and_year("Ran (1985) (Japan)"), ("Ran".to_owned(), Some(1985)));
}

#[test]
fn unclosed_group_is_dropped() {
    assert_eq!(title::extract_name_and_year("Brazil (1985"), ("Brazil".to_owned(), None));
}

#[test]
fn article_the_moves_to_front() {
    assert_eq!(title::extract_name_and_year("Matrix, The (1999)"), ("The Matrix".to_owned(), Some(1999)));
    assert_eq!(title::extract_name_and_year("Bug's Life, A (1998)"), ("A Bug's Life".to_owned(), Some(1998)));
    assert_eq!(title::extract_name_and_year("Hobbit, AN (2000)"), ("AN Hobbit".to_owned(), Some(2000)));
}

#[test]
fn last_comma_decides() {
    assert_eq!(
        title::extract_name_and_year("Good, the Bad and the Ugly, The (1966)"),
        ("The Good, the Bad and the Ugly".to_owned(), Some(1966))
    );
}

#[test]
fn year_with_plus_sign_and_overflow() {
    assert_eq!(title::extract_name_and_year("X (+12)"), ("X".to_owned(), Some(12)));
    assert_eq!(title::extract_name_and_year("X (99999999999) (7)"), ("X".to_owned(), Some(7)));
}

#[test]
fn normalized_names_have_no_open_parenthesis() {
    for raw in ["A (b (c) d) (2000)", "((1999)", "Up (x) (y", "(", "a)b"] {
        let (name, _) = title::extract_name_and_year(raw);
        assert!(!name.contains('(') && !name.contains(')'), "{}", name);
    }
    // A `)` that closes no group is dropped.
    assert_eq!(title::extract_name_and_year("a) b"), ("a b".to_owned(), None));
    assert_eq!(title::extract_name_and_year("Foo) (2000)"), ("Foo".to_owned(), Some(2000)));
}

#[test]
fn normalizing_twice_changes_nothing() {
    for raw in [
        "Misérables, Les (1995)",
        "Honey, I Shrunk the Kids (1989)",
        "Kenji Mizoguchi: The Life of a Film Director (Aru eiga-kantoku no shogai) (1975)",
        "  Toy   Story (1995)",
    ] {
        let (name, _) = title::extract_name_and_year(raw);
        assert_eq!(title::extract_name_and_year(&name), (name.clone(), None));
    }
}

#[test]
fn dropped_group_between_spaces_leaves_one_space() {
    assert_eq!(title::extract_name_and_year("A (x) B"), ("A B".to_owned(), None));
    assert_eq!(title::extract_name_and_year("A \t(x)  B (2001)"), ("A B".to_owned(), Some(2001)));
}

#[test]
fn whitespace_runs_become_one_space() {
    assert_eq!(title::extract_name_and_year("A\t\tB"), ("A B".to_owned(), None));
    assert_eq!(title::extract_name_and_year("A\u{2003}B (2004)"), ("A B".to_owned(), Some(2004)));
}

#[test]
fn article_rule_takes_the_lowered_tail() {
    let name: Vec<char> = "Matrix, The ".chars().collect();
    assert_eq!(title::comma_tail_text(&name), "The");
    assert_eq!(title::arrange_name(&name, "the"), "The Matrix");
    assert_eq!(title::arrange_name(&name, "The"), "Matrix, The");
    let name: Vec<char> = " Heat ".chars().collect();
    assert_eq!(title::comma_tail_text(&name), "");
    assert_eq!(title::arrange_name(&name, "the"), "Heat");
    assert!(title::is_article_text("les"));
    assert!(!title::is_article_text("Les"));
    assert!(!title::is_article_text("lesx"));
}
