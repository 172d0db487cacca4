use kitchen::error::Error;
use kitchen::movielens::{check_digest, from_rows, movie_from_row, remove_all, verify_archive, CatalogRow};

#[test]
fn rows_become_fresh_entries() {
    let row = CatalogRow { youtube_id: "K_tLp7T6U1c".to_owned(), title: "  Toy Story (1995) ".to_owned() };
    let m = movie_from_row(&row);
    assert_eq!(m.name, "Toy Story");
    assert_eq!(m.year, Some(1995));
    assert_eq!(m.youtube_id, "K_tLp7T6U1c");
    assert!(m.genres.is_empty() && m.critics_number.is_none() && m.metacritic_score.is_none());
    let ms = from_rows(&vec![row.clone(), CatalogRow { youtube_id: "x".to_owned(), title: "Matrix, The (1999)".to_owned() }]);
    assert_eq!(ms.len(), 2);
    assert_eq!(ms[1].name, "The Matrix");
}

#[test]
fn label_is_removed_everywhere() {
    assert_eq!(remove_all("abXYcdXYXY", "XY"), "abcd");
    assert_eq!(remove_all("aaa", "aa"), "a");
    assert_eq!(remove_all("", "a"), "");
}

#[test]
fn digest_matches_listing() {
    let listing = "MD5 (ml-youtube.zip) = d41d8cd98f00b204e9800998ecf8427e\n";
    assert!(check_digest(listing, &"d41d8cd98f00b204e9800998ecf8427e".to_owned()).is_ok());
    assert!(matches!(
        check_digest(listing, &"00".to_owned()),
        Err(Error::Checksum(a, b)) if a == "00" && b == "d41d8cd98f00b204e9800998ecf8427e"
    ));
}

#[test]
fn archive_digest_is_computed() {
    let listing = "MD5 (ml-youtube.zip) = d41d8cd98f00b204e9800998ecf8427e";
    assert!(verify_archive(listing, &vec![]).is_ok());
    assert!(matches!(verify_archive(listing, &b"abc".to_vec()), Err(Error::Checksum(a, _)) if a == "900150983cd24fb0d6963f7d28e17f72"));
}

#[test]
fn error_messages() {
    assert_eq!(Error::Unknown.message(), "unknown");
    assert_eq!(Error::Generic("x".to_owned()).message(), "x");
    assert_eq!(Error::Checksum("a".to_owned(), "b".to_owned()).message(), "mismatched checksum: 'a' != 'b'");
    assert_eq!(Error::UnknownGenre("Foo".to_owned()).message(), "unknown genre: 'Foo'");
    assert_eq!(Error::ParseError("n/a".to_owned()).message(), "failed to parse: 'n/a'");
    assert_eq!(Error::NotFound(Some(12)).message(), "movie search found no result with loss = 12");
    assert_eq!(Error::NotFound(None).message(), "movie search found no result");
    assert_eq!(Error::YoutubeDL("dl".to_owned()).message(), "dl");
    assert_eq!(Error::FFMPEG("ff".to_owned()).message(), "ff");
}
