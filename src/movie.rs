use vstd::prelude::*;

use crate::error::Error;
use crate::text::same_text;

verus! {

/// A catalog entry together with the metadata that enrichment fills in.
#[derive(Debug, Clone)]
pub struct Movie {
    pub name: String,
    pub youtube_id: String,
    pub year: Option<u32>,
    pub genres: Vec<Genre>,
    pub critics_number: Option<u32>,
    pub metacritic_score: Option<u8>,
}

impl Default for Movie {
    fn default() -> (r: Movie)
        ensures
            r.name@.len() == 0,
            r.youtube_id@.len() == 0,
            r.year is None,
            r.genres@.len() == 0,
            r.critics_number is None,
            r.metacritic_score is None,
    {
        Movie {
            name: String::new(),
            youtube_id: String::new(),
            year: None,
            genres: Vec::new(),
            critics_number: None,
            metacritic_score: None,
        }
    }
}

/// The closed genre vocabulary of the title pages.
#[derive(Debug, Clone, Copy, PartialEq, Eq, Structural, Hash, PartialOrd, Ord)]
pub enum Genre {
    Fantasy,
    Comedy,
    Adventure,
    Family,
    Animation,
    Drama,
    Action,
    SciFi,
    Romance,
    Short,
    Thriller,
    Mystery,
    Horror,
    Music,
    Crime,
    Musical,
    GameShow,
    History,
    War,
    Sport,
    TalkShow,
    Documentary,
    RealityTV,
    Biography,
    Western,
    News,
    Adult,
    FilmNoir,
}

/// The position of a genre in the vocabulary.
pub open spec fn genre_index(g: Genre) -> u8 {
    match g {
        Genre::Fantasy => 0,
        Genre::Comedy => 1,
        Genre::Adventure => 2,
        Genre::Family => 3,
        Genre::Animation => 4,
        Genre::Drama => 5,
        Genre::Action => 6,
        Genre::SciFi => 7,
        Genre::Romance => 8,
        Genre::Short => 9,
        Genre::Thriller => 10,
        Genre::Mystery => 11,
        Genre::Horror => 12,
        Genre::Music => 13,
        Genre::Crime => 14,
        Genre::Musical => 15,
        Genre::GameShow => 16,
        Genre::History => 17,
        Genre::War => 18,
        Genre::Sport => 19,
        Genre::TalkShow => 20,
        Genre::Documentary => 21,
        Genre::RealityTV => 22,
        Genre::Biography => 23,
        Genre::Western => 24,
        Genre::News => 25,
        Genre::Adult => 26,
        Genre::FilmNoir => 27,
    }
}

/// Distinct genres have distinct positions.
pub proof fn lemma_genre_index_injective()
    ensures
        forall|a: Genre, b: Genre| genre_index(a) == genre_index(b) ==> a == b,
{
}

/// The genre that a token of the title pages names, if it is in the vocabulary
/// (exact spelling, no folding).
pub open spec fn genre_of_token(t: Seq<char>) -> Option<Genre> {
    if t == "Fantasy"@ {
        Some(Genre::Fantasy)
    } else if t == "Comedy"@ {
        Some(Genre::Comedy)
    } else if t == "Adventure"@ {
        Some(Genre::Adventure)
    } else if t == "Family"@ {
        Some(Genre::Family)
    } else if t == "Animation"@ {
        Some(Genre::Animation)
    } else if t == "Drama"@ {
        Some(Genre::Drama)
    } else if t == "Action"@ {
        Some(Genre::Action)
    } else if t == "Sci-Fi"@ {
        Some(Genre::SciFi)
    } else if t == "Romance"@ {
        Some(Genre::Romance)
    } else if t == "Short"@ {
        Some(Genre::Short)
    } else if t == "Thriller"@ {
        Some(Genre::Thriller)
    } else if t == "Mystery"@ {
        Some(Genre::Mystery)
    } else if t == "Horror"@ {
        Some(Genre::Horror)
    } else if t == "Music"@ {
        Some(Genre::Music)
    } else if t == "Crime"@ {
        Some(Genre::Crime)
    } else if t == "Musical"@ {
        Some(Genre::Musical)
    } else if t == "Game-Show"@ {
        Some(Genre::GameShow)
    } else if t == "History"@ {
        Some(Genre::History)
    } else if t == "War"@ {
        Some(Genre::War)
    } else if t == "Sport"@ {
        Some(Genre::Sport)
    } else if t == "Talk-Show"@ {
        Some(Genre::TalkShow)
    } else if t == "Documentary"@ {
        Some(Genre::Documentary)
    } else if t == "Reality-TV"@ {
        Some(Genre::RealityTV)
    } else if t == "Biography"@ {
        Some(Genre::Biography)
    } else if t == "Western"@ {
        Some(Genre::Western)
    } else if t == "News"@ {
        Some(Genre::News)
    } else if t == "Adult"@ {
        Some(Genre::Adult)
    } else if t == "Film-Noir"@ {
        Some(Genre::FilmNoir)
    } else {
        None
    }
}

impl Genre {
    /// The position of the genre in the vocabulary.
    pub fn index(&self) -> (r: u8)
        ensures
            r == genre_index(*self),
    {
        match self {
            Genre::Fantasy => 0,
            Genre::Comedy => 1,
            Genre::Adventure => 2,
            Genre::Family => 3,
            Genre::Animation => 4,
            Genre::Drama => 5,
            Genre::Action => 6,
            Genre::SciFi => 7,
            Genre::Romance => 8,
            Genre::Short => 9,
            Genre::Thriller => 10,
            Genre::Mystery => 11,
            Genre::Horror => 12,
            Genre::Music => 13,
            Genre::Crime => 14,
            Genre::Musical => 15,
            Genre::GameShow => 16,
            Genre::History => 17,
            Genre::War => 18,
            Genre::Sport => 19,
            Genre::TalkShow => 20,
            Genre::Documentary => 21,
            Genre::RealityTV => 22,
            Genre::Biography => 23,
            Genre::Western => 24,
            Genre::News => 25,
            Genre::Adult => 26,
            Genre::FilmNoir => 27,
        }
    }

    /// Maps a token of the title pages to its genre; any other token is an
    /// `UnknownGenre` error that carries the token.
    pub fn from_text(text: &str) -> (r: Result<Genre, Error>)
        ensures
            match genre_of_token(text@) {
                Some(g) => r == Ok::<Genre, Error>(g),
                None => r matches Err(Error::UnknownGenre(s)) && s@ == text@,
            },
    {
        if same_text(text, "Fantasy") {
            Ok(Genre::Fantasy)
        } else if same_text(text, "Comedy") {
            Ok(Genre::Comedy)
        } else if same_text(text, "Adventure") {
            Ok(Genre::Adventure)
        } else if same_text(text, "Family") {
            Ok(Genre::Family)
        } else if same_text(text, "Animation") {
            Ok(Genre::Animation)
        } else if same_text(text, "Drama") {
            Ok(Genre::Drama)
        } else if same_text(text, "Action") {
            Ok(Genre::Action)
        } else if same_text(text, "Sci-Fi") {
            Ok(Genre::SciFi)
        } else if same_text(text, "Romance") {
            Ok(Genre::Romance)
        } else if same_text(text, "Short") {
            Ok(Genre::Short)
        } else if same_text(text, "Thriller") {
            Ok(Genre::Thriller)
        } else if same_text(text, "Mystery") {
            Ok(Genre::Mystery)
        } else if same_text(text, "Horror") {
            Ok(Genre::Horror)
        } else if same_text(text, "Music") {
            Ok(Genre::Music)
        } else if same_text(text, "Crime") {
            Ok(Genre::Crime)
        } else if same_text(text, "Musical") {
            Ok(Genre::Musical)
        } else if same_text(text, "Game-Show") {
            Ok(Genre::GameShow)
        } else if same_text(text, "History") {
            Ok(Genre::History)
        } else if same_text(text, "War") {
            Ok(Genre::War)
        } else if same_text(text, "Sport") {
            Ok(Genre::Sport)
        } else if same_text(text, "Talk-Show") {
            Ok(Genre::TalkShow)
        } else if same_text(text, "Documentary") {
            Ok(Genre::Documentary)
        } else if same_text(text, "Reality-TV") {
            Ok(Genre::RealityTV)
        } else if same_text(text, "Biography") {
            Ok(Genre::Biography)
        } else if same_text(text, "Western") {
            Ok(Genre::Western)
        } else if same_text(text, "News") {
            Ok(Genre::News)
        } else if same_text(text, "Adult") {
            Ok(Genre::Adult)
        } else if same_text(text, "Film-Noir") {
            Ok(Genre::FilmNoir)
        } else {
            Err(Error::UnknownGenre(text.to_owned()))
        }
    }
}

} // verus!
