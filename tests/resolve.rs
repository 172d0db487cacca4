use kitchen::error::Error;
use kitchen::imdb::{
    candidate_loss, is_episodic, parse_hit, pick_best, same_title, search, search_exact,
    HitScore, SearchHit,
};

fn hit(id: &str, name: &str, trailing: &str) -> SearchHit {
    SearchHit {
        href: format!("/title/tt{}/?ref_=fn_tt_tt_1", id),
        link_text: name.to_owned(),
        trailing_text: trailing.to_owned(),
    }
}

#[test]
fn get_url() {
    assert_eq!(kitchen::imdb::get_url(120737), "https://www.imdb.com/title/tt0120737");
}

#[test]
fn url_of_long_and_zero_ids() {
    assert_eq!(kitchen::imdb::get_url(12345678), "https://www.imdb.com/title/tt12345678");
    assert_eq!(kitchen::imdb::get_url(0), "https://www.imdb.com/title/tt0000000");
}

#[test]
fn right_year_gives_loss_zero_even_with_another_name() {
    let hits = vec![hit("3", "Heat 2", " (1995)"), hit("4", "Heat", " (1995)")];
    assert_eq!(search("Heat", Some(1995), &hits).unwrap(), 3);
}

#[test]
fn exact_match_returns_at_once() {
    let hits = vec![
        hit("1", "Other", " (2000)"),
        hit("120737", "The Lord of the Rings", " (2001)"),
        hit("99999999999", "Broken", " (2001)"),
    ];
    assert_eq!(search("The Lord of the Rings", Some(2001), &hits).unwrap(), 120737);
}

#[test]
fn unparsable_id_before_a_match_fails() {
    let hits = vec![hit("99999999999", "Broken", " (2001)"), hit("7", "Heat", " (1995)")];
    assert!(matches!(search("Heat", Some(1995), &hits), Err(Error::ParseError(s)) if s == "99999999999"));
}

#[test]
fn best_loss_wins_and_first_wins_ties() {
    let hits = vec![
        hit("10", "Heat", " (1993)"),
        hit("11", "Heat", " (1996)"),
        hit("12", "Heat", " (1994)"),
    ];
    assert_eq!(search("Heat", Some(1995), &hits).unwrap(), 11);
}

#[test]
fn loss_of_four_or_more_is_not_found() {
    let hits = vec![hit("10", "Heat 2", " (1993)"), hit("11", "Heat", " (1999)")];
    assert!(matches!(search("Heat", Some(1995), &hits), Err(Error::NotFound(Some(4)))));
    let hits = vec![hit("10", "Heat 2", " (1994)")];
    assert_eq!(search("Heat", Some(1995), &hits).unwrap(), 10);
    let hits = vec![hit("10", "Heat", " (1998)")];
    assert_eq!(search("heat ", Some(1995), &hits).unwrap(), 10);
}

#[test]
fn exact_search_ignores_names() {
    let hits = vec![hit("21", "Dream (Korean)", " (2008)")];
    assert_eq!(search_exact("Dream", Some(2008), &hits).unwrap(), 21);
    assert_eq!(search("Dream", Some(2009), &hits).unwrap(), 21);
    assert!(matches!(search("Dream", Some(2010), &hits), Err(Error::NotFound(Some(4)))));
}

#[test]
fn no_year_or_no_rows_is_not_found() {
    let hits = vec![hit("10", "Heat", " (1995)")];
    assert!(matches!(search("Heat", None, &hits), Err(Error::NotFound(None))));
    assert!(matches!(search("Heat", Some(1995), &vec![]), Err(Error::NotFound(None))));
}

#[test]
fn episodic_rows_are_skipped() {
    let hits = vec![
        hit("30", "Northern Lights", " (2009) (TV Series)"),
        hit("31", "Northern Lights", " (2009) (TV Movie)"),
    ];
    assert_eq!(search("Northern Lights", Some(2009), &hits).unwrap(), 31);
    assert!(is_episodic(&Some("TV Mini-Series".to_owned())));
    assert!(!is_episodic(&Some("TV Special".to_owned())));
    assert!(!is_episodic(&Some("Video".to_owned())));
    assert!(!is_episodic(&None));
}

#[test]
fn rows_without_an_id_are_skipped() {
    let hits = vec![
        SearchHit {
            href: "/name/nm0000123/".to_owned(),
            link_text: "Heat".to_owned(),
            trailing_text: " (1995)".to_owned(),
        },
        hit("5", "Heat", " (1996)"),
    ];
    assert_eq!(search("Heat", Some(1995), &hits).unwrap(), 5);
}

#[test]
fn rows_are_read() {
    let c = parse_hit(&hit("0120737", "The Lord of the Rings", " (2001) (Video Game)")).unwrap().unwrap();
    assert_eq!(c.id, 120737);
    assert_eq!(c.name, "The Lord of the Rings");
    assert_eq!(c.year, 2001);
    assert_eq!(c.title_type.as_deref(), Some("Video Game"));
    let c = parse_hit(&hit("42", "Untitled", " (in development)")).unwrap().unwrap();
    assert_eq!(c.year, 0);
    assert_eq!(c.title_type, None);
}

#[test]
fn losses_are_computed() {
    assert_eq!(candidate_loss(false, true, 2000, 2000), 0);
    assert_eq!(candidate_loss(false, false, 2000, 2003), 6);
    assert_eq!(candidate_loss(true, false, 2003, 2000), 3);
    assert_eq!(candidate_loss(false, true, 0, 4000000000), 4000000000);
    assert_eq!(candidate_loss(false, false, 4294967295, 0), 8589934590);
}

#[test]
fn names_compare_trimmed_and_lower_cased() {
    assert!(same_title("  The Matrix ", "the matrix"));
    assert!(!same_title("The Matrix", "Matrix"));
}

#[test]
fn scored_rows_decide() {
    let scores = vec![HitScore::Skipped, HitScore::Scored(2, 8), HitScore::Scored(0, 9), HitScore::Unparsable("x".to_owned())];
    assert_eq!(pick_best(&scores).unwrap(), 9);
    let scores = vec![HitScore::Scored(5, 8), HitScore::Scored(3, 9)];
    assert_eq!(pick_best(&scores).unwrap(), 9);
    let scores = vec![HitScore::Scored(5, 8), HitScore::Unparsable("x".to_owned())];
    assert!(matches!(pick_best(&scores), Err(Error::ParseError(s)) if s == "x"));
    let scores = vec![HitScore::Scored(5, 8), HitScore::Scored(4, 9)];
    assert!(matches!(pick_best(&scores), Err(Error::NotFound(Some(4)))));
}

#[test]
fn search_address_is_form_encoded() {
    assert_eq!(
        kitchen::imdb::search_url("Amélie & Co", true).unwrap(),
        "https://www.imdb.com/find?q=Am%C3%A9lie+%26+Co&s=tt&exact=true"
    );
    assert_eq!(
        kitchen::imdb::search_url("Heat", false).unwrap(),
        "https://www.imdb.com/find?q=Heat&s=tt&exact=false"
    );
}
