//! The plain data that the engine stores and reports.

use vstd::prelude::*;
use vstd::string::StringExecFns;
use std::collections::HashMap;

verus! {

/// A stored vector: the bit patterns of its binary32 components.
pub type Embedding = Vec<u32>;

/// A stored document: its identifier and the metadata attached to it.
#[derive(Clone, Debug)]
pub struct Document {
    pub id: String,
    pub metadata: HashMap<String, String>,
}

/// A map of strings as a mathematical map from key text to value text.
pub open spec fn text_map(m: Map<String, String>) -> Map<Seq<char>, Seq<char>> {
    Map::new(
        |k: Seq<char>| exists|s: String| m.contains_key(s) && s@ == k,
        |k: Seq<char>| m[choose|s: String| m.contains_key(s) && s@ == k]@,
    )
}

/// A document's metadata as a mathematical map from key text to value text.
pub open spec fn metadata_view(metadata: HashMap<String, String>) -> Map<Seq<char>, Seq<char>> {
    text_map(metadata@)
}

/// Empty metadata is the empty map.
pub proof fn lemma_text_map_empty()
    ensures
        text_map(Map::<String, String>::empty()) == Map::<Seq<char>, Seq<char>>::empty(),
{
    assert(text_map(Map::<String, String>::empty()) =~= Map::<Seq<char>, Seq<char>>::empty());
}

/// The similarity or distance function by which search results are ranked.
#[derive(Clone, Copy, Debug, PartialEq, Eq, Structural)]
pub enum Metric {
    Cosine,
    Euclidean,
    Dot,
}

impl Metric {
    /// Whether a larger score is the better one under this metric.
    pub open spec fn spec_higher_is_better(self) -> bool {
        self != Metric::Euclidean
    }

    /// Whether a larger score is the better one under this metric: true for
    /// cosine similarity and dot product, false for Euclidean distance.
    #[verifier::when_used_as_spec(spec_higher_is_better)]
    pub fn higher_is_better(self) -> (r: bool)
        ensures
            r == self.spec_higher_is_better(),
    {
        match self {
            Metric::Euclidean => false,
            _ => true,
        }
    }
}

/// Why a store refused a write.
#[derive(Clone, Copy, Debug, PartialEq, Eq, Structural)]
pub enum StoreError {
    /// The vector's length differs from the store's dimension.
    DimensionMismatch { expected: usize, actual: usize },
}

/// The text of one decimal digit.
pub open spec fn digit_text(d: nat) -> Seq<char> {
    if d == 0 {
        "0"@
    } else if d == 1 {
        "1"@
    } else if d == 2 {
        "2"@
    } else if d == 3 {
        "3"@
    } else if d == 4 {
        "4"@
    } else if d == 5 {
        "5"@
    } else if d == 6 {
        "6"@
    } else if d == 7 {
        "7"@
    } else if d == 8 {
        "8"@
    } else {
        "9"@
    }
}

/// A number in decimal, without leading zeros.
pub open spec fn decimal_text(n: nat) -> Seq<char>
    decreases n,
{
    if n < 10 {
        digit_text(n)
    } else {
        decimal_text(n / 10) + digit_text(n % 10)
    }
}

/// The text of a dimension-mismatch error for the two lengths.
pub open spec fn dimension_mismatch_text(expected: usize, actual: usize) -> Seq<char> {
    "Vector dimension mismatch: expected "@ + decimal_text(expected as nat) + ", got "@
        + decimal_text(actual as nat)
}

fn digit_str(d: usize) -> (s: &'static str)
    requires
        d < 10,
    ensures
        s@ == digit_text(d as nat),
{
    if d == 0 {
        "0"
    } else if d == 1 {
        "1"
    } else if d == 2 {
        "2"
    } else if d == 3 {
        "3"
    } else if d == 4 {
        "4"
    } else if d == 5 {
        "5"
    } else if d == 6 {
        "6"
    } else if d == 7 {
        "7"
    } else if d == 8 {
        "8"
    } else {
        "9"
    }
}

/// Writes a number in decimal.
pub fn decimal(n: usize) -> (s: String)
    ensures
        s@ == decimal_text(n as nat),
    decreases n,
{
    if n < 10 {
        digit_str(n).to_owned()
    } else {
        decimal(n / 10).concat(digit_str(n % 10))
    }
}

impl StoreError {
    /// The text of this error.
    pub open spec fn spec_message(self) -> Seq<char> {
        match self {
            StoreError::DimensionMismatch { expected, actual } => dimension_mismatch_text(
                expected,
                actual,
            ),
        }
    }

    /// The message shown to a caller, naming the expected and the actual
    /// length.
    pub fn message(&self) -> (text: String)
        ensures
            text@ == self.spec_message(),
    {
        match self {
            StoreError::DimensionMismatch { expected, actual } => {
                "Vector dimension mismatch: expected ".to_owned().concat(
                    decimal(*expected).as_str(),
                ).concat(", got ").concat(decimal(*actual).as_str())
            },
        }
    }
}

} // verus!
