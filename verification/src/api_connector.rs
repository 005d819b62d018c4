//! Addresses and retry policy of the two remote services.

use crate::text::{text_entries, text_pairs};
use vstd::prelude::*;
use vstd::string::StringExecFns;

verus! {

/// A connector for the word embedding service and the entity graph service.
pub struct ApiConnector {
    /// The base URL of the word embedding service.
    wembed_api: String,
    /// The base URL of the entity graph service.
    wikidata_api: String,
}

impl ApiConnector {
    /// The base URL of the word embedding service, as text.
    pub closed spec fn wembed_base(&self) -> Seq<char> {
        self.wembed_api@
    }

    /// The base URL of the entity graph service, as text.
    pub closed spec fn wikidata_base(&self) -> Seq<char> {
        self.wikidata_api@
    }

    /// Creates a connector from the two base URLs.
    pub fn new(wembed_api: String, wikidata_api: String) -> (connector: Self)
        ensures
            connector.wembed_base() == wembed_api@,
            connector.wikidata_base() == wikidata_api@,
    {
        Self { wembed_api, wikidata_api }
    }
}

/// What the entity graph service returns for an entity: the outgoing edges
/// of that entity and of entities near it, and the labels and descriptions of
/// every entity and property that those edges name.
pub struct AdjacencyBundle {
    /// The label of each entity.
    pub q_labels: Vec<(String, String)>,
    /// The description of each entity.
    pub q_descriptions: Vec<(String, String)>,
    /// The label of each property.
    pub p_labels: Vec<(String, String)>,
    /// The description of each property.
    pub p_descriptions: Vec<(String, String)>,
    /// The outgoing edges of each entity, each written as the property, a
    /// hyphen and the entity it enters.
    pub adjacent_entities: Vec<(String, Vec<String>)>,
}

/// An adjacency bundle, as a mathematical value.
pub ghost struct BundleView {
    /// The label of each entity.
    pub q_labels: Seq<(Seq<char>, Seq<char>)>,
    /// The description of each entity.
    pub q_descriptions: Seq<(Seq<char>, Seq<char>)>,
    /// The label of each property.
    pub p_labels: Seq<(Seq<char>, Seq<char>)>,
    /// The description of each property.
    pub p_descriptions: Seq<(Seq<char>, Seq<char>)>,
    /// The outgoing edges of each entity.
    pub adjacent_entities: Seq<(Seq<char>, Seq<Seq<char>>)>,
}

/// The mathematical value of a bundle.
pub open spec fn bundle_view(bundle: AdjacencyBundle) -> BundleView {
    BundleView {
        q_labels: text_pairs(bundle.q_labels@),
        q_descriptions: text_pairs(bundle.q_descriptions@),
        p_labels: text_pairs(bundle.p_labels@),
        p_descriptions: text_pairs(bundle.p_descriptions@),
        adjacent_entities: text_entries(bundle.adjacent_entities@),
    }
}

/// The depth that a fetch of adjacent entities is tried with first.
pub const FIRST_DEPTH: u8 = 2;

/// The depth to try after a fetch at depth `failed` has failed: one less, as
/// long as that is at least 1. After a failure at depth 1 or 0 nothing is
/// left to try.
pub open spec fn depth_after(failed: u8) -> Option<u8> {
    if failed > 1 {
        Some((failed - 1) as u8)
    } else {
        None
    }
}

/// The depth to try after a fetch at depth `failed` has failed, if any is
/// left.
pub fn next_depth(failed: u8) -> (next: Option<u8>)
    ensures
        next == depth_after(failed),
{
    if failed > 1 {
        Some(failed - 1)
    } else {
        None
    }
}

/// The character of a decimal digit.
pub open spec fn digit_char(digit: nat) -> char {
    if digit == 0 {
        '0'
    } else if digit == 1 {
        '1'
    } else if digit == 2 {
        '2'
    } else if digit == 3 {
        '3'
    } else if digit == 4 {
        '4'
    } else if digit == 5 {
        '5'
    } else if digit == 6 {
        '6'
    } else if digit == 7 {
        '7'
    } else if digit == 8 {
        '8'
    } else {
        '9'
    }
}

/// A number written in decimal digits, without leading zeros.
pub open spec fn decimal_text(number: nat) -> Seq<char>
    decreases number,
{
    if number < 10 {
        seq![digit_char(number)]
    } else {
        decimal_text(number / 10).push(digit_char(number % 10))
    }
}

/// The text of a decimal digit.
fn digit_text(digit: u8) -> (text: &'static str)
    requires
        digit < 10,
    ensures
        text@ == seq![digit_char(digit as nat)],
{
    proof {
        reveal_strlit("0");
        reveal_strlit("1");
        reveal_strlit("2");
        reveal_strlit("3");
        reveal_strlit("4");
        reveal_strlit("5");
        reveal_strlit("6");
        reveal_strlit("7");
        reveal_strlit("8");
        reveal_strlit("9");
    }
    let text = if digit == 0 {
        "0"
    } else if digit == 1 {
        "1"
    } else if digit == 2 {
        "2"
    } else if digit == 3 {
        "3"
    } else if digit == 4 {
        "4"
    } else if digit == 5 {
        "5"
    } else if digit == 6 {
        "6"
    } else if digit == 7 {
        "7"
    } else if digit == 8 {
        "8"
    } else {
        "9"
    };
    text
}

/// Writes a small number in decimal digits.
pub fn write_decimal(number: u8) -> (text: String)
    ensures
        text@ == decimal_text(number as nat),
{
    let mut text = String::new();
    if number >= 100 {
        text.append(digit_text(number / 100));
    }
    if number >= 10 {
        text.append(digit_text((number / 10) % 10));
    }
    text.append(digit_text(number % 10));
    proof {
        let n = number as nat;
        if n >= 100 {
            assert(decimal_text(n / 10) == decimal_text(n / 100).push(digit_char((n / 10) % 10)));
        } else if n >= 10 {
            assert(decimal_text(n / 10) == seq![digit_char(n / 10)]);
        }
    }
    text
}

/// The address that answers with the adjacent entities of `entity`, fetched
/// to `depth`.
pub open spec fn adjacent_entities_address(base: Seq<char>, entity: Seq<char>, depth: u8) -> Seq<
    char,
> {
    base + "/adjacent_entities?entity="@ + entity + "&depth="@ + decimal_text(depth as nat)
}

/// The address that answers with the label and description of `entity`.
pub open spec fn label_description_address(base: Seq<char>, entity: Seq<char>) -> Seq<char> {
    base + "/label_description?entity="@ + entity
}

/// The address that answers with the distance between two strings.
pub open spec fn distance_address(base: Seq<char>, string_a: Seq<char>, string_b: Seq<char>) -> Seq<
    char,
> {
    base + "?string_a="@ + string_a + "&string_b="@ + string_b
}

impl ApiConnector {
    /// The address to fetch the adjacent entities of `entity` from, to
    /// `depth`.
    pub fn adjacent_entities_url(&self, entity: &str, depth: u8) -> (url: String)
        ensures
            url@ == adjacent_entities_address(self.wikidata_base(), entity@, depth),
    {
        let depth_text = write_decimal(depth);
        let mut url = self.wikidata_api.clone();
        url.append("/adjacent_entities?entity=");
        url.append(entity);
        url.append("&depth=");
        url.append(depth_text.as_str());
        url
    }

    /// The address to fetch the label and description of `entity` from.
    pub fn label_description_url(&self, entity: &str) -> (url: String)
        ensures
            url@ == label_description_address(self.wikidata_base(), entity@),
    {
        let mut url = self.wikidata_api.clone();
        url.append("/label_description?entity=");
        url.append(entity);
        url
    }

    /// The address to fetch the distance between two strings from.
    pub fn semantic_distance_url(&self, string_a: &str, string_b: &str) -> (url: String)
        ensures
            url@ == distance_address(self.wembed_base(), string_a@, string_b@),
    {
        let mut url = self.wembed_api.clone();
        url.append("?string_a=");
        url.append(string_a);
        url.append("&string_b=");
        url.append(string_b);
        url
    }

    /// The base URL of the word embedding service.
    pub fn wembed_api(&self) -> (base: &String)
        ensures
            base@ == self.wembed_base(),
    {
        &self.wembed_api
    }

    /// The base URL of the entity graph service.
    pub fn wikidata_api(&self) -> (base: &String)
        ensures
            base@ == self.wikidata_base(),
    {
        &self.wikidata_api
    }
}

} // verus!
