use vstd::prelude::*;
use crate::session::texts;

verus! {

/// Why a dictionary document gave no word pool.
#[derive(Debug, Clone, Copy, PartialEq, Eq, Structural)]
pub enum WordSourceError {
    /// The text is not a JSON document.
    NotJson,
    /// The document has no `words` member holding an array.
    NoWordArray,
    /// An entry of the `words` array is not a string.
    NonStringWord,
}

/// What the `words` member of the JSON document `text` holds, as serde_json
/// reads it: `None` when the text is not JSON, `Some(None)` when the member
/// is missing or not an array, else each entry's text, `None` for an entry
/// that is not a string.
pub uninterp spec fn json_words_field(text: Seq<char>) -> Option<Option<Seq<Option<Seq<char>>>>>;

pub open spec fn opt_text(o: Option<String>) -> Option<Seq<char>> {
    match o {
        Some(s) => Some(s@),
        None => None,
    }
}

/// The contents of a `words` member read into library values.
pub open spec fn field_view(f: Option<Option<Vec<Option<String>>>>) -> Option<
    Option<Seq<Option<Seq<char>>>>,
> {
    match f {
        None => None,
        Some(None) => Some(None),
        Some(Some(v)) => Some(Some(Seq::new(v@.len(), |i: int| opt_text(v@[i])))),
    }
}

/// Relies on serde_json's `from_str` into a `Value`, its indexing by the key
/// `"words"` (a `Null` when absent), and `Value::as_str` on each entry.
#[verifier::external_body]
fn read_words_field(text: &str) -> (r: Option<Option<Vec<Option<String>>>>)
    ensures
        field_view(r) == json_words_field(text@),
{
    match serde_json::from_str::<serde_json::Value>(text) {
        Err(_) => None,
        Ok(json) => match &json["words"] {
            serde_json::Value::Array(words) => Some(
                Some(words.iter().map(|w| w.as_str().map(|s| s.to_string())).collect()),
            ),
            _ => Some(None),
        },
    }
}

/// The word pool a `words` member gives: its entries' texts in order, or
/// the reason there is none.
pub open spec fn pool_of(f: Option<Option<Seq<Option<Seq<char>>>>>) -> Result<
    Seq<Seq<char>>,
    WordSourceError,
> {
    match f {
        None => Err(WordSourceError::NotJson),
        Some(None) => Err(WordSourceError::NoWordArray),
        Some(Some(es)) => if exists|i: int| 0 <= i < es.len() && (#[trigger] es[i]) is None {
            Err(WordSourceError::NonStringWord)
        } else {
            Ok(Seq::new(es.len(), |i: int| es[i]->Some_0))
        },
    }
}

pub open spec fn pool_view(r: Result<Vec<String>, WordSourceError>) -> Result<
    Seq<Seq<char>>,
    WordSourceError,
> {
    match r {
        Ok(v) => Ok(texts(v@)),
        Err(e) => Err(e),
    }
}

/// Turns the contents of a `words` member into a word pool.
pub fn pool_from_field(field: Option<Option<Vec<Option<String>>>>) -> (r: Result<
    Vec<String>,
    WordSourceError,
>)
    ensures
        pool_view(r) == pool_of(field_view(field)),
{
    let ghost f = field_view(field);
    match field {
        None => Err(WordSourceError::NotJson),
        Some(None) => Err(WordSourceError::NoWordArray),
        Some(Some(entries)) => {
            let ghost es = f->Some_0->Some_0;
            let mut pool: Vec<String> = Vec::new();
            let n = entries.len();
            let mut i: usize = 0;
            while i < n
                invariant
                    i <= n,
                    n == entries.len(),
                    es == Seq::new(entries.len() as nat, |k: int| opt_text(entries@[k])),
                    pool.len() == i,
                    f == Some(Some(es)),
                    f == field_view(field),
                    forall|k: int| 0 <= k < i ==> #[trigger] es[k] == Some(pool@[k]@),
                decreases n - i,
            {
                match &entries[i] {
                    Some(w) => {
                        pool.push(w.clone());
                    },
                    None => {
                        assert(es[i as int] is None);
                        return Err(WordSourceError::NonStringWord);
                    },
                }
                i += 1;
            }
            assert(texts(pool@) =~= Seq::new(es.len(), |k: int| es[k]->Some_0));
            assert(!exists|k: int| 0 <= k < es.len() && (#[trigger] es[k]) is None);
            Ok(pool)
        },
    }
}

/// The word pool of a JSON dictionary document: the strings of its `words`
/// array, in order.
pub fn word_pool(text: &str) -> (r: Result<Vec<String>, WordSourceError>)
    ensures
        pool_view(r) == pool_of(json_words_field(text@)),
{
    pool_from_field(read_words_field(text))
}

} // verus!
