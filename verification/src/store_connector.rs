//! The rules of the write-through cache in front of the remote services.
//!
//! The cache keeps four stores: labels, descriptions, distances and outgoing
//! edges. Reading and writing them is the caller's; what is written after a
//! fetch, under which key, and how a stored value is read back is decided
//! here.

use crate::api_connector::{AdjacencyBundle, BundleView};
use crate::text::{byte_entries, text_entries, text_pairs, texts};
use vstd::bytes::spec_u64_to_le_bytes;
use vstd::prelude::*;
use vstd::string::{StrSliceExecFns, StringExecFns};
use vstd::utf8::encode_utf8;

verus! {

/// Why the stored edges of an entity cannot be read.
#[derive(Clone, Copy, Debug, PartialEq, Eq, Structural)]
pub enum StoreError {
    /// The stored bytes are not a list of strings.
    Undecodable,
    /// A stored edge holds no hyphen between its property and its entity.
    MalformedToken,
}

/// Whether the remote service has to be asked about an entity: one of its
/// three records is missing.
pub fn bundle_needed(has_label: bool, has_description: bool, has_adjacency: bool) -> (needed: bool)
    ensures
        needed == !(has_label && has_description && has_adjacency),
{
    !has_label || !has_description || !has_adjacency
}

/// The stored form of a string: the length of its UTF-8 form in eight
/// bytes, lowest first, and that form.
pub open spec fn encoded_string(text: Seq<char>) -> Seq<u8> {
    spec_u64_to_le_bytes(encode_utf8(text).len() as u64) + encode_utf8(text)
}

/// The stored forms of some strings, one after the other.
pub open spec fn encoded_each(strings: Seq<Seq<char>>) -> Seq<u8>
    decreases strings.len(),
{
    if strings.len() == 0 {
        Seq::empty()
    } else {
        encoded_each(strings.drop_last()) + encoded_string(strings.last())
    }
}

/// The stored form of a list of strings: their count in eight bytes, lowest
/// first, and the stored form of each.
pub open spec fn encoded_strings(strings: Seq<Seq<char>>) -> Seq<u8> {
    spec_u64_to_le_bytes(strings.len() as u64) + encoded_each(strings)
}

/// `bincode::ErrorKind`, which is passed through unread.
#[verifier::external_type_specification]
#[verifier::external_body]
pub struct ExBincodeErrorKind(bincode::ErrorKind);

/// The list of strings that stored bytes stand for, if they stand for one.
pub uninterp spec fn decoded_strings(bytes: Seq<u8>) -> Option<Seq<Seq<char>>>;

/// `bincode::serialize` on a list of strings. It writes the count of the
/// strings and, for each, the length of its UTF-8 form and that form, every
/// number in eight bytes with the lowest first. None of its errors can arise
/// for this type: it writes to memory, sets no size limit, and a list knows
/// its length.
#[verifier::external_body]
fn encode_strings(strings: &Vec<String>) -> (encoded: Result<Vec<u8>, bincode::Error>)
    ensures
        encoded is Ok,
        encoded matches Ok(bytes) ==> bytes@ == encoded_strings(texts(strings@)),
{
    bincode::serialize(strings)
}

/// Whether decoding has given the list `strings`.
pub open spec fn decoded_as(
    decoded: Result<Vec<String>, bincode::Error>,
    strings: Seq<Seq<char>>,
) -> bool {
    match decoded {
        Ok(list) => texts(list@) == strings,
        Err(_) => false,
    }
}

/// `bincode::deserialize` to a list of strings. Its result depends on the
/// bytes alone, and it reads back what `bincode::serialize` has written: the
/// stored form of a list decodes to that list.
#[verifier::external_body]
fn decode_strings(bytes: &[u8]) -> (decoded: Result<Vec<String>, bincode::Error>)
    ensures
        match decoded {
            Ok(strings) => decoded_strings(bytes@) == Some(texts(strings@)),
            Err(_) => decoded_strings(bytes@) is None,
        },
        forall|strings: Seq<Seq<char>>| #[trigger]
            encoded_strings(strings) == bytes@ ==> decoded_as(decoded, strings),
{
    bincode::deserialize(bytes)
}

/// Whether the entry at `place` is marked as cached. An entry without a
/// mark is not.
pub open spec fn marked(cached: Seq<bool>, place: int) -> bool {
    0 <= place < cached.len() && cached[place]
}

/// The edges to be written after a fetch: the stored form of the edges of
/// each entity that is not cached yet, in the order of the bundle.
pub open spec fn planned_adjacency(
    entries: Seq<(Seq<char>, Seq<Seq<char>>)>,
    cached: Seq<bool>,
) -> Seq<(Seq<char>, Seq<u8>)>
    decreases entries.len(),
{
    if entries.len() == 0 {
        Seq::empty()
    } else if marked(cached, entries.len() - 1) {
        planned_adjacency(entries.drop_last(), cached)
    } else {
        planned_adjacency(entries.drop_last(), cached).push(
            (entries.last().0, encoded_strings(entries.last().1)),
        )
    }
}

/// The edges to be written after a fetch. `cached` says of each entity of
/// the bundle, in its order, whether its edges are stored already; such an
/// entity is passed over.
pub fn adjacency_batch(adjacent_entities: &Vec<(String, Vec<String>)>, cached: &Vec<bool>) -> (batch:
    Vec<(String, Vec<u8>)>)
    ensures
        byte_entries(batch@) == planned_adjacency(text_entries(adjacent_entities@), cached@),
{
    let ghost entries = text_entries(adjacent_entities@);
    let mut batch: Vec<(String, Vec<u8>)> = Vec::new();
    let mut i: usize = 0;
    while i < adjacent_entities.len()
        invariant
            i <= adjacent_entities.len(),
            entries == text_entries(adjacent_entities@),
            byte_entries(batch@) == planned_adjacency(entries.take(i as int), cached@),
        decreases adjacent_entities.len() - i,
    {
        proof {
            assert(entries.take(i + 1).drop_last() =~= entries.take(i as int));
        }
        let is_cached = i < cached.len() && cached[i];
        if !is_cached {
            match encode_strings(&adjacent_entities[i].1) {
                Ok(bytes) => {
                    batch.push((adjacent_entities[i].0.clone(), bytes));
                },
                Err(_) => {
                    assert(false);
                },
            }
        }
        i = i + 1;
    }
    proof {
        assert(entries.take(i as int) =~= entries);
    }
    batch
}

/// The entries of `first` followed by those of `second`.
pub fn chained(first: &Vec<(String, String)>, second: &Vec<(String, String)>) -> (all: Vec<
    (String, String),
>)
    ensures
        text_pairs(all@) == text_pairs(first@) + text_pairs(second@),
{
    let mut all: Vec<(String, String)> = Vec::new();
    let mut i: usize = 0;
    while i < first.len()
        invariant
            i <= first.len(),
            all.len() == i,
            forall|j: int| 0 <= j < i ==> all[j].0@ == first[j].0@ && all[j].1@ == first[j].1@,
        decreases first.len() - i,
    {
        all.push((first[i].0.clone(), first[i].1.clone()));
        i = i + 1;
    }
    let mut k: usize = 0;
    while k < second.len()
        invariant
            k <= second.len(),
            all.len() == first.len() + k,
            forall|j: int|
                0 <= j < first.len() ==> all[j].0@ == first[j].0@ && all[j].1@ == first[j].1@,
            forall|j: int|
                0 <= j < k ==> all[first.len() + j].0@ == second[j].0@ && all[first.len() + j].1@
                    == second[j].1@,
        decreases second.len() - k,
    {
        all.push((second[k].0.clone(), second[k].1.clone()));
        k = k + 1;
    }
    all
}

/// The labels to be written after a fetch: those of the entities, then those
/// of the properties.
pub fn label_batch(bundle: &AdjacencyBundle) -> (batch: Vec<(String, String)>)
    ensures
        text_pairs(batch@) == text_pairs(bundle.q_labels@) + text_pairs(bundle.p_labels@),
{
    chained(&bundle.q_labels, &bundle.p_labels)
}

/// The descriptions to be written after a fetch: those of the entities, then
/// those of the properties.
pub fn description_batch(bundle: &AdjacencyBundle) -> (batch: Vec<(String, String)>)
    ensures
        text_pairs(batch@) == text_pairs(bundle.q_descriptions@) + text_pairs(
            bundle.p_descriptions@,
        ),
{
    chained(&bundle.q_descriptions, &bundle.p_descriptions)
}

/// The place of the first hyphen of `token`, or its length if it holds none.
pub open spec fn first_hyphen(token: Seq<char>) -> int
    decreases token.len(),
{
    if token.len() == 0 {
        0
    } else if token[0] == '-' {
        0
    } else {
        1 + first_hyphen(token.drop_first())
    }
}

/// The property and the entity of a stored edge: what stands before its first
/// hyphen and what stands after it.
pub open spec fn split_edge(token: Seq<char>) -> Option<(Seq<char>, Seq<char>)> {
    let place = first_hyphen(token);
    if place < token.len() {
        Some((token.take(place), token.skip(place + 1)))
    } else {
        None
    }
}

/// The first hyphen stands where a hyphen stands that none precedes, and
/// past the end of a token that holds none.
pub proof fn lemma_first_hyphen(token: Seq<char>, place: int)
    requires
        0 <= place <= token.len(),
        forall|i: int| 0 <= i < place ==> token[i] != '-',
        place < token.len() ==> token[place] == '-',
    ensures
        first_hyphen(token) == place,
    decreases token.len(),
{
    if token.len() > 0 && place > 0 {
        let rest = token.drop_first();
        lemma_first_hyphen(rest, place - 1);
    }
}

/// Splits a stored edge at its first hyphen into its property and its
/// entity. A token without a hyphen is no edge.
pub fn split_token(token: &str) -> (edge: Option<(String, String)>)
    ensures
        match edge {
            Some((prop, entity)) => split_edge(token@) == Some((prop@, entity@)),
            None => split_edge(token@) is None,
        },
{
    let length = token.unicode_len();
    let mut i: usize = 0;
    while i < length
        invariant
            length == token@.len(),
            i <= length,
            forall|j: int| 0 <= j < i ==> token@[j] != '-',
        decreases length - i,
    {
        if token.get_char(i) == '-' {
            proof {
                lemma_first_hyphen(token@, i as int);
            }
            let prop = token.substring_char(0, i).to_owned();
            let entity = token.substring_char(i + 1, length).to_owned();
            return Some((prop, entity));
        }
        i = i + 1;
    }
    proof {
        lemma_first_hyphen(token@, length as int);
    }
    None
}

/// The edges that a list of stored tokens stands for, if every token is an
/// edge.
pub open spec fn split_edges(tokens: Seq<Seq<char>>) -> Option<Seq<(Seq<char>, Seq<char>)>> {
    if forall|i: int| 0 <= i < tokens.len() ==> split_edge(#[trigger] tokens[i]) is Some {
        Some(Seq::new(tokens.len(), |i: int| split_edge(tokens[i])->0))
    } else {
        None
    }
}

/// The edges that a list of tokens stands for. Fails with `MalformedToken`
/// exactly where one of them holds no hyphen.
pub fn split_tokens(tokens: &Vec<String>) -> (result: Result<Vec<(String, String)>, StoreError>)
    ensures
        match result {
            Ok(edges) => split_edges(texts(tokens@)) == Some(text_pairs(edges@)),
            Err(error) => split_edges(texts(tokens@)) is None && error
                == StoreError::MalformedToken,
        },
{
    let mut edges: Vec<(String, String)> = Vec::new();
    let mut i: usize = 0;
    while i < tokens.len()
        invariant
            i <= tokens.len(),
            edges.len() == i,
            forall|j: int|
                0 <= j < i ==> split_edge(#[trigger] texts(tokens@)[j]) == Some(
                    (edges[j].0@, edges[j].1@),
                ),
        decreases tokens.len() - i,
    {
        assert(texts(tokens@)[i as int] == tokens[i as int]@);
        match split_token(tokens[i].as_str()) {
            Some(edge) => {
                edges.push(edge);
            },
            None => {
                return Err(StoreError::MalformedToken);
            },
        }
        i = i + 1;
    }
    proof {
        let wanted = split_edges(texts(tokens@));
    }
    Ok(edges)
}

/// The edges that a decoded list of tokens stands for.
pub open spec fn read_edges(decoded: Option<Seq<Seq<char>>>) -> Result<
    Seq<(Seq<char>, Seq<char>)>,
    StoreError,
> {
    match decoded {
        None => Err(StoreError::Undecodable),
        Some(tokens) => match split_edges(tokens) {
            None => Err(StoreError::MalformedToken),
            Some(edges) => Ok(edges),
        },
    }
}

/// The edges that stored bytes stand for.
pub open spec fn stored_edges(bytes: Seq<u8>) -> Result<Seq<(Seq<char>, Seq<char>)>, StoreError> {
    read_edges(decoded_strings(bytes))
}

/// The edges that were read, or the reason why none were, as a mathematical
/// value.
pub open spec fn edges_view(result: Result<Vec<(String, String)>, StoreError>) -> Result<
    Seq<(Seq<char>, Seq<char>)>,
    StoreError,
> {
    match result {
        Ok(edges) => Ok(text_pairs(edges@)),
        Err(error) => Err(error),
    }
}

/// Reads the stored edges of an entity: the bytes are decoded to a list of
/// tokens, and each token is split at its first hyphen. The edges come in
/// stored order. Bytes that are the stored form of a list of tokens give the
/// edges of those tokens.
///
/// Fails with `Undecodable` exactly where the bytes are no list of strings,
/// and with `MalformedToken` exactly where they are one and a token holds no
/// hyphen.
pub fn parse_adjacency(bytes: &[u8]) -> (result: Result<Vec<(String, String)>, StoreError>)
    ensures
        edges_view(result) == stored_edges(bytes@),
        forall|tokens: Seq<Seq<char>>| #[trigger]
            encoded_strings(tokens) == bytes@ ==> edges_view(result) == read_edges(Some(tokens)),
{
    match decode_strings(bytes) {
        Err(_) => Err(StoreError::Undecodable),
        Ok(tokens) => split_tokens(&tokens),
    }
}

/// The string that stands for an entity where distances are taken: its
/// label, a space, and its description.
pub fn composite_string(label: &str, description: &str) -> (composite: String)
    ensures
        composite@ == label@ + seq![' '] + description@,
{
    let mut composite = label.to_owned();
    proof {
        reveal_strlit(" ");
    }
    composite.append(" ");
    composite.append(description);
    composite
}

/// The key of a distance in its store: the string of the first entity, an
/// ampersand, and the string of the second. The key of a pair is not the key
/// of the same pair in the other order.
pub fn distance_key(string_a: &str, string_b: &str) -> (key: String)
    ensures
        key@ == string_a@ + seq!['&'] + string_b@,
{
    let mut key = string_a.to_owned();
    proof {
        reveal_strlit("&");
    }
    key.append("&");
    key.append(string_b);
    key
}

/// What the stores of labels, descriptions and edges hold, as a mathematical
/// value.
#[verifier::ext_equal]
pub ghost struct StoreImage {
    /// The label stored for each entity and property.
    pub labels: Map<Seq<char>, Seq<char>>,
    /// The description stored for each entity and property.
    pub descriptions: Map<Seq<char>, Seq<char>>,
    /// The stored form of the edges of each entity.
    pub adjacency: Map<Seq<char>, Seq<u8>>,
}

/// A store after a batch was written to it, one entry after the other.
pub open spec fn written<V>(store: Map<Seq<char>, V>, batch: Seq<(Seq<char>, V)>) -> Map<
    Seq<char>,
    V,
>
    decreases batch.len(),
{
    if batch.len() == 0 {
        store
    } else {
        written(store, batch.drop_last()).insert(batch.last().0, batch.last().1)
    }
}

/// Whether a batch holds an entry for `key`.
pub open spec fn names<V>(batch: Seq<(Seq<char>, V)>, key: Seq<char>) -> bool {
    exists|i: int| 0 <= i < batch.len() && (#[trigger] batch[i]).0 == key
}

impl StoreImage {
    /// Whether the remote service has to be asked about `entity`.
    pub open spec fn needs_bundle(self, entity: Seq<char>) -> bool {
        !(self.labels.contains_key(entity) && self.descriptions.contains_key(entity)
            && self.adjacency.contains_key(entity))
    }

    /// Of each entity of a bundle, whether its edges are stored.
    pub open spec fn cached_marks(self, entries: Seq<(Seq<char>, Seq<Seq<char>>)>) -> Seq<bool> {
        Seq::new(entries.len(), |i: int| self.adjacency.contains_key(entries[i].0))
    }

    /// The stores after the three batches of a bundle were written.
    pub open spec fn populated(self, bundle: BundleView) -> StoreImage {
        StoreImage {
            labels: written(self.labels, bundle.q_labels + bundle.p_labels),
            descriptions: written(self.descriptions, bundle.q_descriptions + bundle.p_descriptions),
            adjacency: written(
                self.adjacency,
                planned_adjacency(
                    bundle.adjacent_entities,
                    self.cached_marks(bundle.adjacent_entities),
                ),
            ),
        }
    }

    /// The stores after the edges of `entity` were asked for, where `bundle`
    /// is what the remote service answers if it is asked.
    pub open spec fn looked_up(self, entity: Seq<char>, bundle: BundleView) -> StoreImage {
        if self.needs_bundle(entity) {
            self.populated(bundle)
        } else {
            self
        }
    }

    /// Whether the stores and a bundle together hold all three records of
    /// `entity`.
    pub open spec fn covered(self, entity: Seq<char>, bundle: BundleView) -> bool {
        &&& self.labels.contains_key(entity) || names(bundle.q_labels + bundle.p_labels, entity)
        &&& self.descriptions.contains_key(entity) || names(
            bundle.q_descriptions + bundle.p_descriptions,
            entity,
        )
        &&& self.adjacency.contains_key(entity) || names(bundle.adjacent_entities, entity)
    }
}

/// A store holds a key after a batch was written exactly where it held the
/// key before or the batch names it.
pub proof fn lemma_written_keys<V>(store: Map<Seq<char>, V>, batch: Seq<(Seq<char>, V)>, key: Seq<
    char,
>)
    ensures
        written(store, batch).contains_key(key) <==> store.contains_key(key) || names(batch, key),
    decreases batch.len(),
{
    if batch.len() > 0 {
        let front = batch.drop_last();
        lemma_written_keys(store, front, key);
        if names(front, key) {
            let i = choose|i: int| 0 <= i < front.len() && (#[trigger] front[i]).0 == key;
        }
        if names(batch, key) {
            let i = choose|i: int| 0 <= i < batch.len() && (#[trigger] batch[i]).0 == key;
            if i < front.len() {
                assert(front[i].0 == key);
            }
        }
    }
}

/// The edges planned for writing name every entity of the bundle that is
/// not marked as cached.
pub proof fn lemma_planned_names(
    entries: Seq<(Seq<char>, Seq<Seq<char>>)>,
    cached: Seq<bool>,
    place: int,
)
    requires
        0 <= place < entries.len(),
        !marked(cached, place),
    ensures
        names(planned_adjacency(entries, cached), entries[place].0),
    decreases entries.len(),
{
    let planned = planned_adjacency(entries, cached);
    let front = planned_adjacency(entries.drop_last(), cached);
    if place == entries.len() - 1 {
        assert(planned[planned.len() - 1].0 == entries[place].0);
    } else {
        lemma_planned_names(entries.drop_last(), cached, place);
        let i = choose|i: int| 0 <= i < front.len() && (#[trigger] front[i]).0 == entries[place].0;
        assert(planned[i] == front[i]);
    }
}

/// Once the edges of an entity were asked for, and the stores and the answer
/// of the remote service together held its three records, asking again needs
/// no bundle and leaves the stores as they are: the same bytes are read, so
/// the same edges are returned.
pub proof fn lemma_second_lookup_is_local(
    image: StoreImage,
    entity: Seq<char>,
    bundle: BundleView,
    later: BundleView,
)
    requires
        image.covered(entity, bundle),
    ensures
        !image.looked_up(entity, bundle).needs_bundle(entity),
        image.looked_up(entity, bundle).looked_up(entity, later) == image.looked_up(entity, bundle),
        stored_edges(image.looked_up(entity, bundle).looked_up(entity, later).adjacency[entity])
            == stored_edges(image.looked_up(entity, bundle).adjacency[entity]),
{
    if image.needs_bundle(entity) {
        lemma_written_keys(image.labels, bundle.q_labels + bundle.p_labels, entity);
        lemma_written_keys(
            image.descriptions,
            bundle.q_descriptions + bundle.p_descriptions,
            entity,
        );
        let marks = image.cached_marks(bundle.adjacent_entities);
        let planned = planned_adjacency(bundle.adjacent_entities, marks);
        lemma_written_keys(image.adjacency, planned, entity);
        if !image.adjacency.contains_key(entity) {
            let i = choose|i: int|
                0 <= i < bundle.adjacent_entities.len() && (#[trigger] bundle.adjacent_entities[i]).0
                    == entity;
            lemma_planned_names(bundle.adjacent_entities, marks, i);
        }
    }
}

/// Once the edges of an entity were asked for, its label is stored, as long
/// as it was stored before or the answer of the remote service held it: a
/// later request for the label is answered from the store.
pub proof fn lemma_label_stored_after_lookup(
    image: StoreImage,
    entity: Seq<char>,
    bundle: BundleView,
)
    requires
        image.labels.contains_key(entity) || names(bundle.q_labels + bundle.p_labels, entity),
    ensures
        image.looked_up(entity, bundle).labels.contains_key(entity),
{
    lemma_written_keys(image.labels, bundle.q_labels + bundle.p_labels, entity);
}

} // verus!
