use kitchen::enrich::{fill_from_page, needs_filling};
use kitchen::error::Error;
use kitchen::imdb::{get_critics_number, get_genres, get_metascore, PageHeading, TitlePage};
use kitchen::movie::{Genre, Movie};

fn page(links: &[&str], score: Option<&str>, critics: Option<&str>) -> TitlePage {
    TitlePage {
        headings: vec![
            PageHeading { label: Some("Country:".to_owned()), parent_links: Some(vec!["USA".to_owned()]) },
            PageHeading {
                label: Some("Genres:".to_owned()),
                parent_links: Some(links.iter().map(|s| s.to_string()).collect()),
            },
        ],
        metascore_texts: score.map(|s| vec![None, Some(s.to_owned())]).unwrap_or_default(),
        critics_texts: critics.map(|s| vec![Some(s.to_owned())]).unwrap_or_default(),
    }
}

#[test]
fn genres_are_read_beside_their_heading() {
    let p = page(&[" Action", "Adventure ", "Drama", "Fantasy"], None, None);
    assert_eq!(get_genres(&p).unwrap(), vec![Genre::Action, Genre::Adventure, Genre::Drama, Genre::Fantasy]);
}

#[test]
fn one_unknown_genre_fails_the_list() {
    let p = page(&["Action", "Cyberpunk", "Drama"], None, None);
    assert!(matches!(get_genres(&p), Err(Error::UnknownGenre(t)) if t == "Cyberpunk"));
    let p = page(&["Action", "Drama", "Space Opera"], None, None);
    assert!(matches!(get_genres(&p), Err(Error::UnknownGenre(t)) if t == "Space Opera"));
}

#[test]
fn missing_genre_heading_fails() {
    let p = TitlePage { headings: vec![], metascore_texts: vec![], critics_texts: vec![] };
    assert!(matches!(get_genres(&p), Err(Error::UnknownGenre(t)) if t == "no genre found"));
    let p = TitlePage {
        headings: vec![PageHeading { label: Some("Genres:".to_owned()), parent_links: None }],
        metascore_texts: vec![],
        critics_texts: vec![],
    };
    assert!(matches!(get_genres(&p), Err(Error::UnknownGenre(_))));
}

#[test]
fn score_is_read_from_the_first_badge() {
    assert_eq!(get_metascore(&page(&[], Some("92"), None)).unwrap(), 92);
    assert!(matches!(get_metascore(&page(&[], Some("n/a"), None)), Err(Error::ParseError(s)) if s == "n/a"));
    assert!(matches!(get_metascore(&page(&[], Some("256"), None)), Err(Error::ParseError(_))));
    assert!(matches!(get_metascore(&page(&[], Some("150"), None)), Err(Error::ParseError(s)) if s == "150"));
    assert!(matches!(get_metascore(&page(&[], Some("101"), None)), Err(Error::ParseError(_))));
    assert_eq!(get_metascore(&page(&[], Some("100"), None)).unwrap(), 100);
    assert_eq!(get_metascore(&page(&[], Some("0"), None)).unwrap(), 0);
    assert!(matches!(get_metascore(&page(&[], None, None)), Err(Error::Generic(s)) if s == "missing metacritic score"));
}

#[test]
fn critics_are_read_from_the_review_link() {
    assert_eq!(get_critics_number(&page(&[], None, Some("337 critic"))).unwrap(), 337);
    assert_eq!(get_critics_number(&page(&[], None, Some("1,2 critic"))).unwrap(), 2);
    assert!(matches!(get_critics_number(&page(&[], None, Some("many critics x"))), Err(Error::ParseError(_))));
    assert!(matches!(get_critics_number(&page(&[], None, None)), Err(Error::Generic(s)) if s == "missing critics number"));
}

fn movie() -> Movie {
    Movie { name: "Heat".to_owned(), youtube_id: "abc".to_owned(), year: Some(1995), ..Default::default() }
}

#[test]
fn fill_takes_what_reads() {
    let mut m = movie();
    assert!(needs_filling(&m));
    fill_from_page(&mut m, &page(&["Crime", "Drama"], Some("x"), Some("12 critic"))).unwrap();
    assert_eq!(m.genres, vec![Genre::Crime, Genre::Drama]);
    assert_eq!(m.critics_number, Some(12));
    assert_eq!(m.metacritic_score, None);
    assert!(needs_filling(&m));
    fill_from_page(&mut m, &page(&["Action"], Some("76"), Some("99 critic"))).unwrap();
    assert_eq!(m.genres, vec![Genre::Crime, Genre::Drama]);
    assert_eq!(m.critics_number, Some(12));
    assert_eq!(m.metacritic_score, Some(76));
    assert!(!needs_filling(&m));
}

#[test]
fn failed_genres_leave_the_entry_unchanged() {
    let mut m = movie();
    assert!(fill_from_page(&mut m, &page(&["Nope"], Some("76"), Some("99 critic"))).is_err());
    assert!(m.genres.is_empty());
    assert_eq!(m.critics_number, None);
    assert_eq!(m.metacritic_score, None);
}

#[test]
fn complete_entry_is_left_alone() {
    let mut m = movie();
    m.genres = vec![Genre::Crime];
    m.critics_number = Some(5);
    m.metacritic_score = Some(50);
    assert!(!needs_filling(&m));
    fill_from_page(&mut m, &page(&["Action"], Some("76"), Some("99 critic"))).unwrap();
    assert_eq!(m.genres, vec![Genre::Crime]);
    assert_eq!(m.critics_number, Some(5));
    assert_eq!(m.metacritic_score, Some(50));
}

#[test]
fn fill_order_does_not_matter() {
    let pages = vec![
        page(&["Crime"], Some("10"), Some("1 critic")),
        page(&["Nope"], Some("20"), Some("2 critic")),
        page(&["Drama", "War"], None, Some("3 critic")),
    ];
    let run = |order: &[usize]| {
        let mut ms = vec![movie(), movie(), movie()];
        ms[2].critics_number = Some(7);
        for &i in order {
            let _ = fill_from_page(&mut ms[i], &pages[i]);
        }
        ms.iter().map(|m| (m.genres.clone(), m.critics_number, m.metacritic_score)).collect::<Vec<_>>()
    };
    let first = run(&[0, 1, 2]);
    assert_eq!(first, run(&[2, 1, 0]));
    assert_eq!(first, run(&[1, 2, 0]));
    assert_eq!(first[2], (vec![Genre::Drama, Genre::War], Some(7), None));
}

#[test]
fn heading_without_text_is_no_genre_heading() {
    let empty = PageHeading { label: None, parent_links: Some(vec!["Nope".to_owned()]) };
    let p = TitlePage { headings: vec![empty.clone()], metascore_texts: vec![], critics_texts: vec![] };
    assert!(matches!(get_genres(&p), Err(Error::UnknownGenre(t)) if t == "no genre found"));
    let mut p = page(&["War"], None, None);
    p.headings.insert(0, empty);
    assert_eq!(get_genres(&p).unwrap(), vec![Genre::War]);
}
