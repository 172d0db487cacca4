use kitchen::movie::{Genre, Movie};
use kitchen::stats::count_genres;

fn with_genres(gs: &[Genre]) -> Movie {
    Movie { genres: gs.to_vec(), ..Default::default() }
}

#[test]
fn genres_are_counted_in_ascending_order() {
    let movies = vec![
        with_genres(&[Genre::Drama, Genre::Crime]),
        with_genres(&[Genre::Drama]),
        with_genres(&[Genre::Comedy, Genre::Drama, Genre::Crime]),
        with_genres(&[]),
    ];
    assert_eq!(count_genres(&movies, &None), vec![(Genre::Comedy, 1), (Genre::Crime, 2), (Genre::Drama, 3)]);
}

#[test]
fn only_selected_genres_are_counted() {
    let movies = vec![with_genres(&[Genre::Drama, Genre::Crime]), with_genres(&[Genre::Crime, Genre::War])];
    assert_eq!(
        count_genres(&movies, &Some(vec![Genre::Crime, Genre::War])),
        vec![(Genre::War, 1), (Genre::Crime, 2)]
    );
    assert_eq!(count_genres(&movies, &Some(vec![])), vec![]);
    assert_eq!(count_genres(&vec![], &None), vec![]);
}

#[test]
fn equal_counts_keep_first_seen_order() {
    let movies = vec![with_genres(&[Genre::War, Genre::Action]), with_genres(&[Genre::Action, Genre::War, Genre::Horror])];
    assert_eq!(count_genres(&movies, &None), vec![(Genre::Horror, 1), (Genre::War, 2), (Genre::Action, 2)]);
}
