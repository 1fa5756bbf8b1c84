//! The catalog of one run: cinemas and films.

use crate::seance::text_of;
use vstd::prelude::*;

verus! {

/// The address of the network's site.
pub const ROOT_URL: &'static str = "https://www.cip-paris.fr";

/// The address that `Url::join` gives for a path read against the address
/// `root`; nothing where `root` is no address or the path cannot be
/// joined to it.
pub uninterp spec fn joined_url(root: Seq<char>, path: Seq<char>) -> Option<Seq<char>>;

/// `reqwest::Url::parse` of `root`, `Url::join` of `path` to it, and the
/// result written out as text.
#[verifier::external_body]
fn join_url(root: &str, path: &str) -> (address: Option<String>)
    ensures
        text_of(address) == joined_url(root@, path@),
{
    let base = reqwest::Url::parse(root).ok()?;
    let joined = base.join(path).ok()?;
    Some(joined.to_string())
}

/// The address of a page of the site, given its path.
pub fn site_url(path: &str) -> (address: Option<String>)
    ensures
        text_of(address) == joined_url(ROOT_URL@, path@),
{
    join_url(ROOT_URL, path)
}

/// A cinema of the network.
#[derive(Debug)]
pub struct Cinema {
    pub id: u64,
    pub name: String,
    pub url_path: String,
    pub address: String,
    pub image_path: String,
}

/// A film on the programme.
#[derive(Debug)]
pub struct Film {
    pub id: u64,
    pub name: String,
    pub url_path: String,
    pub image_path: String,
    pub director: String,
    pub release_date: String,
}

/// Characters that separate the words of an address.
pub open spec fn is_blank(c: char) -> bool {
    c == ' ' || c == '\t' || c == '\n' || c == '\r'
}

/// Where the last word among the first `n` characters ends: behind the
/// last character that is not blank.
pub open spec fn word_end(s: Seq<char>, n: int) -> int
    decreases n,
{
    if n <= 0 {
        0
    } else if is_blank(s[n - 1]) {
        word_end(s, n - 1)
    } else {
        n
    }
}

/// Where the word that ends at `n` starts: behind the last blank before
/// `n`.
pub open spec fn word_start(s: Seq<char>, n: int) -> int
    decreases n,
{
    if n <= 0 {
        0
    } else if is_blank(s[n - 1]) {
        n
    } else {
        word_start(s, n - 1)
    }
}

/// The last word of a text; empty where the text has none.
pub open spec fn last_word(s: Seq<char>) -> Seq<char> {
    let end = word_end(s, s.len() as int);
    s.subrange(word_start(s, end), end)
}

/// A name followed by a detail in round brackets.
pub open spec fn labelled(name: Seq<char>, detail: Seq<char>) -> Seq<char> {
    name + " ("@ + detail + ")"@
}

fn label(name: &String, detail: &str) -> (text: String)
    ensures
        text@ == labelled(name@, detail@),
{
    let mut text = name.clone();
    text.append(" (");
    text.append(detail);
    text.append(")");
    text
}

/// Whether a character separates words.
pub fn blank(c: char) -> (yes: bool)
    ensures
        yes == is_blank(c),
{
    c == ' ' || c == '\t' || c == '\n' || c == '\r'
}

impl Cinema {
    /// The postal code: the last word of the address.
    pub fn zip(&self) -> (code: String)
        ensures
            code@ == last_word(self.address@),
    {
        let text = self.address.as_str();
        let n = text.unicode_len();
        let mut end: usize = n;
        while end > 0 && blank(text.get_char(end - 1))
            invariant
                end <= n,
                n == text@.len(),
                word_end(text@, n as int) == word_end(text@, end as int),
            decreases end,
        {
            end -= 1;
        }
        let mut start: usize = end;
        while start > 0 && !blank(text.get_char(start - 1))
            invariant
                start <= end <= n,
                n == text@.len(),
                word_start(text@, end as int) == word_start(text@, start as int),
            decreases start,
        {
            start -= 1;
        }
        String::from_str(text.substring_char(start, end))
    }

    /// Name and postal code, as shown in listings.
    pub fn description(&self) -> (text: String)
        ensures
            text@ == labelled(self.name@, last_word(self.address@)),
    {
        let code = self.zip();
        label(&self.name, code.as_str())
    }

    /// The address of the cinema's page.
    pub fn url(&self) -> (address: Option<String>)
        ensures
            text_of(address) == joined_url(ROOT_URL@, self.url_path@),
    {
        site_url(self.url_path.as_str())
    }

    /// An equal cinema of its own.
    pub fn duplicate(&self) -> (twin: Cinema)
        ensures
            twin == *self,
    {
        self.renumbered(self.id)
    }

    /// This cinema under identifier `id`.
    pub fn renumbered(&self, id: u64) -> (other: Cinema)
        ensures
            other == (Cinema { id, ..*self }),
    {
        Cinema {
            id,
            name: self.name.clone(),
            url_path: self.url_path.clone(),
            address: self.address.clone(),
            image_path: self.image_path.clone(),
        }
    }
}

impl Film {
    /// Name and release date, as shown in listings.
    pub fn description(&self) -> (text: String)
        ensures
            text@ == labelled(self.name@, self.release_date@),
    {
        label(&self.name, self.release_date.as_str())
    }

    /// The address of the film's page.
    pub fn url(&self) -> (address: Option<String>)
        ensures
            text_of(address) == joined_url(ROOT_URL@, self.url_path@),
    {
        site_url(self.url_path.as_str())
    }

    /// An equal film of its own.
    pub fn duplicate(&self) -> (twin: Film)
        ensures
            twin == *self,
    {
        Film {
            id: self.id,
            name: self.name.clone(),
            url_path: self.url_path.clone(),
            image_path: self.image_path.clone(),
            director: self.director.clone(),
            release_date: self.release_date.clone(),
        }
    }
}

/// The director as the catalog gives it: the empty text where it gives
/// none.
pub fn director_or_empty(director: Option<String>) -> (text: String)
    ensures
        text@ == (match director {
            Some(d) => d@,
            None => Seq::<char>::empty(),
        }),
{
    match director {
        Some(d) => d,
        None => String::new(),
    }
}

/// Numbers the cinemas 1, 2, 3, ... in the order in which the catalog
/// lists them.
pub fn number_cinemas(cinemas: &Vec<Cinema>) -> (numbered: Vec<Cinema>)
    ensures
        numbered@.len() == cinemas@.len(),
        forall|i: int|
            0 <= i < cinemas@.len() ==> #[trigger] numbered@[i] == (Cinema {
                id: (i + 1) as u64,
                ..cinemas@[i]
            }),
{
    let mut numbered: Vec<Cinema> = Vec::new();
    let mut i: usize = 0;
    while i < cinemas.len()
        invariant
            i <= cinemas@.len(),
            numbered@.len() == i,
            forall|k: int|
                0 <= k < i ==> #[trigger] numbered@[k] == (Cinema {
                    id: (k + 1) as u64,
                    ..cinemas@[k]
                }),
        decreases cinemas@.len() - i,
    {
        let id: u64 = i as u64 + 1;
        numbered.push(cinemas[i].renumbered(id));
        i += 1;
    }
    numbered
}

/// Whether `url_path` is the path of none of the first `n` films.
pub open spec fn path_unknown_among(films: Seq<Film>, n: int, url_path: Seq<char>) -> bool {
    forall|k: int| 0 <= k < n && k < films.len() ==> (#[trigger] films[k]).url_path@ != url_path
}

/// The position of the film that a listing's poster link points to: the
/// first film of the catalog with that path.
pub open spec fn film_position(films: Seq<Film>, url_path: Seq<char>) -> Option<int> {
    if path_unknown_among(films, films.len() as int, url_path) {
        None
    } else {
        Some(
            choose|i: int|
                0 <= i < films.len() && films[i].url_path@ == url_path && path_unknown_among(
                    films,
                    i,
                    url_path,
                ),
        )
    }
}

/// Looks a film up by its path.
pub fn find_film(films: &Vec<Film>, url_path: &String) -> (found: Option<usize>)
    ensures
        match found {
            Some(i) => i < films@.len() && films@[i as int].url_path@ == url_path@
                && path_unknown_among(films@, i as int, url_path@),
            None => path_unknown_among(films@, films@.len() as int, url_path@),
        },
        (match found {
            Some(i) => Some(i as int),
            None => None,
        }) == film_position(films@, url_path@),
{
    let mut i: usize = 0;
    while i < films.len()
        invariant
            i <= films@.len(),
            path_unknown_among(films@, i as int, url_path@),
        decreases films@.len() - i,
    {
        if films[i].url_path == *url_path {
            proof {
                let j = film_position(films@, url_path@)->Some_0;
                if j < i {
                    assert(films@[j].url_path@ != url_path@);
                } else if i < j {
                    assert(films@[i as int].url_path@ != url_path@);
                }
            }
            return Some(i);
        }
        i += 1;
    }
    None
}

} // verus!
