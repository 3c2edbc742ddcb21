//! Records of the catalog, lookup queries and the shapes of similarity answers.
//!
//! Floating-point values are carried as their IEEE-754 bit patterns (`u32`),
//! which the logic passes through unchanged.
use std::collections::HashMap;
use vstd::prelude::*;

verus! {

/// One drink of the catalog.
///
/// `drink_url` is the external key that joins a record with the vector index.
/// `position` holds, per projection scheme, coordinates as `f32` bit patterns.
pub struct Drink {
    pub name: String,
    pub recipie: Vec<String>,
    pub category: String,
    pub image_url: String,
    pub drink_url: String,
    pub taste: Vec<String>,
    pub cluster: HashMap<String, i32>,
    pub position: HashMap<String, Vec<u32>>,
}

/// Parameters for fetching drinks by name, URL or taste.
pub struct DrinkQuery {
    pub name: Option<String>,
    pub drink_url: Option<String>,
    pub taste: Option<Vec<String>>,
}

/// The one lookup that a well-formed `DrinkQuery` asks for.
pub enum LookupMode {
    ByUrl(String),
    ByName(String),
    ByTastes(Vec<String>),
    All,
}

/// Why a `DrinkQuery` names no single lookup.
#[derive(Clone, Copy, Debug, PartialEq, Eq, Structural)]
pub enum LookupError {
    /// More than one of the parameters was given.
    TooManyParameters,
}

impl DrinkQuery {
    /// How many of the three parameters are present.
    pub open spec fn param_count(self) -> nat {
        (if self.drink_url.is_some() { 1nat } else { 0nat })
            + (if self.name.is_some() { 1nat } else { 0nat })
            + (if self.taste.is_some() { 1nat } else { 0nat })
    }

    /// Picks the lookup this query asks for: at most one parameter may be set.
    pub fn lookup_mode(self) -> (r: Result<LookupMode, LookupError>)
        ensures
            self.param_count() > 1 <==> r is Err,
            self.param_count() <= 1 ==> match r {
                Ok(LookupMode::ByUrl(u)) => self.drink_url == Some(u),
                Ok(LookupMode::ByName(n)) => self.name == Some(n),
                Ok(LookupMode::ByTastes(t)) => self.taste == Some(t),
                Ok(LookupMode::All) => self.param_count() == 0,
                Err(_) => false,
            },
    {
        let count: u8 = (if self.drink_url.is_some() { 1u8 } else { 0u8 })
            + (if self.name.is_some() { 1u8 } else { 0u8 })
            + (if self.taste.is_some() { 1u8 } else { 0u8 });
        if count > 1 {
            return Err(LookupError::TooManyParameters);
        }
        match self.drink_url {
            Some(u) => Ok(LookupMode::ByUrl(u)),
            None => match self.name {
                Some(n) => Ok(LookupMode::ByName(n)),
                None => match self.taste {
                    Some(t) => Ok(LookupMode::ByTastes(t)),
                    None => Ok(LookupMode::All),
                },
            },
        }
    }
}

/// Keys and distances of index matches, in rank order, as parallel lists.
pub struct SimilarityResponse {
    pub uris: Vec<String>,
    pub distances: Vec<u32>,
}

impl SimilarityResponse {
    /// Both lists have the same length.
    pub open spec fn wf(self) -> bool {
        self.uris@.len() == self.distances@.len()
    }

    /// The matches as (key, distance) pairs.
    pub open spec fn pairs(self) -> Seq<(Seq<char>, u32)> {
        Seq::new(self.uris@.len(), |i: int| (self.uris@[i]@, self.distances@[i]))
    }
}

/// Records of the catalog with the distance of each, best match first.
pub struct SimilarityExtendedResponse {
    pub drinks: Vec<Drink>,
    pub distances: Vec<u32>,
}

impl SimilarityExtendedResponse {
    /// Both lists have the same length.
    pub open spec fn wf(self) -> bool {
        self.drinks@.len() == self.distances@.len()
    }

    /// The result as (record, distance) pairs.
    pub open spec fn pairs(self) -> Seq<(Drink, u32)> {
        Seq::new(self.drinks@.len(), |i: int| (self.drinks@[i], self.distances@[i]))
    }

    /// An answer with no records.
    pub fn empty() -> (r: SimilarityExtendedResponse)
        ensures
            r.drinks@.len() == 0,
            r.distances@.len() == 0,
    {
        SimilarityExtendedResponse { drinks: Vec::new(), distances: Vec::new() }
    }
}

/// A field of a request body, reduced to what the search reads of it.
pub enum FieldValue {
    Absent,
    Text(String),
    /// A number that is a non-negative integer fitting in `u64`.
    Unsigned(u64),
    /// Any other value.
    Other,
}

/// The number of matches asked for when the request names none.
pub const DEFAULT_RESULT_COUNT: u64 = 10;

/// A validated similarity-search request.
pub struct SimilarityRequest {
    pub prompt: String,
    pub n_results: u64,
}

impl SimilarityRequest {
    /// The result count that a request field stands for.
    pub open spec fn spec_count(n_results: FieldValue) -> u64 {
        match n_results {
            FieldValue::Unsigned(n) => if n == 0 { 1 } else { n },
            _ => DEFAULT_RESULT_COUNT,
        }
    }

    /// Reads a request from its `prompt` and `n_results` fields.
    ///
    /// A missing or non-text prompt gives `None`, which callers answer with an
    /// empty result. A missing or non-integer count defaults to ten, and a
    /// count of zero is raised to one.
    pub fn from_fields(prompt: FieldValue, n_results: FieldValue) -> (r: Option<
        SimilarityRequest,
    >)
        ensures
            r is Some <==> prompt is Text,
            r matches Some(req) ==> prompt == FieldValue::Text(req.prompt) && req.n_results
                == Self::spec_count(n_results) && req.n_results >= 1,
    {
        let count: u64 = match n_results {
            FieldValue::Unsigned(n) => if n == 0 { 1 } else { n },
            _ => DEFAULT_RESULT_COUNT,
        };
        match prompt {
            FieldValue::Text(p) => Some(SimilarityRequest { prompt: p, n_results: count }),
            _ => None,
        }
    }
}

} // verus!
