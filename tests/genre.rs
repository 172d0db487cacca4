use kitchen::error::Error;
use kitchen::movie::Genre;

#[test]
fn genre_tokens_map_to_genres() {
    let cases = [
        ("Fantasy", Genre::Fantasy),
        ("Sci-Fi", Genre::SciFi),
        ("Game-Show", Genre::GameShow),
        ("Talk-Show", Genre::TalkShow),
        ("Reality-TV", Genre::RealityTV),
        ("Film-Noir", Genre::FilmNoir),
        ("Western", Genre::Western),
        ("Adult", Genre::Adult),
    ];
    for (token, genre) in cases {
        assert_eq!(Genre::from_text(token).unwrap(), genre);
    }
}

#[test]
fn unknown_genre_token_fails() {
    assert!(matches!(Genre::from_text("SciFi"), Err(Error::UnknownGenre(t)) if t == "SciFi"));
    assert!(matches!(Genre::from_text("drama"), Err(Error::UnknownGenre(t)) if t == "drama"));
    assert!(matches!(Genre::from_text(" Drama"), Err(Error::UnknownGenre(_))));
}
