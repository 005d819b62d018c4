//! The two renderings of a found path: a line for the reader, and Turtle.
//!
//! Both name every entity and property with its label, and Turtle adds its
//! description. Those are looked up in a glossary that the caller fills.

use crate::text::texts;
use itertools::Itertools;
use vstd::hash_map::StringHashMap;
use vstd::prelude::*;
use vstd::string::{StrSliceExecFns, StringExecFns};

verus! {

/// The labels and descriptions of entities and properties.
pub struct Glossary {
    labels: StringHashMap<String>,
    descriptions: StringHashMap<String>,
}

impl Glossary {
    /// The label entered for `id`, or nothing.
    pub closed spec fn label_of(&self, id: Seq<char>) -> Seq<char> {
        if self.labels@.contains_key(id) {
            self.labels@[id]@
        } else {
            Seq::empty()
        }
    }

    /// The description entered for `id`, or nothing.
    pub closed spec fn description_of(&self, id: Seq<char>) -> Seq<char> {
        if self.descriptions@.contains_key(id) {
            self.descriptions@[id]@
        } else {
            Seq::empty()
        }
    }

    /// A glossary without entries.
    pub fn new() -> (glossary: Glossary)
        ensures
            forall|id: Seq<char>| #[trigger] glossary.label_of(id) == Seq::<char>::empty(),
            forall|id: Seq<char>| #[trigger] glossary.description_of(id) == Seq::<char>::empty(),
    {
        Glossary { labels: StringHashMap::new(), descriptions: StringHashMap::new() }
    }

    /// Enters a label and a description for `id`, in place of those
    /// entered before.
    pub fn insert(&mut self, id: &str, label: &str, description: &str)
        ensures
            final(self).label_of(id@) == label@,
            final(self).description_of(id@) == description@,
            forall|other: Seq<char>|
                other != id@ ==> #[trigger] final(self).label_of(other) == old(self).label_of(
                    other,
                ),
            forall|other: Seq<char>|
                other != id@ ==> #[trigger] final(self).description_of(other) == old(
                    self,
                ).description_of(other),
    {
        self.labels.insert(id.to_owned(), label.to_owned());
        self.descriptions.insert(id.to_owned(), description.to_owned());
    }

    /// The label entered for `id`, or an empty string.
    pub fn label(&self, id: &str) -> (label: String)
        ensures
            label@ == self.label_of(id@),
    {
        match self.labels.get(id) {
            Some(label) => label.clone(),
            None => String::new(),
        }
    }

    /// The description entered for `id`, or an empty string.
    pub fn description(&self, id: &str) -> (description: String)
        ensures
            description@ == self.description_of(id@),
    {
        match self.descriptions.get(id) {
            Some(description) => description.clone(),
            None => String::new(),
        }
    }
}

/// `text` with a backslash put before each double quote.
pub open spec fn escaped(text: Seq<char>) -> Seq<char>
    decreases text.len(),
{
    if text.len() == 0 {
        Seq::empty()
    } else if text.last() == '"' {
        escaped(text.drop_last()) + seq!['\\', '"']
    } else {
        escaped(text.drop_last()).push(text.last())
    }
}

/// Puts a backslash before each double quote of `text`.
pub fn escape_quotes(text: &str) -> (result: String)
    ensures
        result@ == escaped(text@),
{
    let length = text.unicode_len();
    let mut result = String::new();
    let mut i: usize = 0;
    proof {
        reveal_strlit("\\\"");
    }
    while i < length
        invariant
            length == text@.len(),
            i <= length,
            result@ == escaped(text@.take(i as int)),
            "\\\""@ == seq!['\\', '"'],
        decreases length - i,
    {
        proof {
            assert(text@.take(i + 1).drop_last() =~= text@.take(i as int));
        }
        if text.get_char(i) == '"' {
            result.append("\\\"");
        } else {
            let piece = text.substring_char(i, i + 1);
            result.append(piece);
        }
        i = i + 1;
    }
    proof {
        assert(text@.take(i as int) =~= text@);
    }
    result
}

/// The strings of a sequence, each at the place where it stands first.
pub open spec fn first_occurrences(strings: Seq<Seq<char>>) -> Seq<Seq<char>>
    decreases strings.len(),
{
    if strings.len() == 0 {
        Seq::empty()
    } else if strings.drop_last().contains(strings.last()) {
        first_occurrences(strings.drop_last())
    } else {
        first_occurrences(strings.drop_last()).push(strings.last())
    }
}

/// `Itertools::unique` over the strings of a list: each string is kept where
/// it stands first, and the strings kept stay in order.
#[verifier::external_body]
fn unique_strings(strings: &Vec<String>) -> (unique: Vec<String>)
    ensures
        texts(unique@) == first_occurrences(texts(strings@)),
{
    strings.iter().unique().cloned().collect()
}

/// The properties of both paths, the forward ones first, each at the place
/// where it stands first.
pub fn unique_props(props_forward: &Vec<String>, props_backward: &Vec<String>) -> (unique: Vec<
    String,
>)
    ensures
        texts(unique@) == first_occurrences(texts(props_forward@) + texts(props_backward@)),
{
    let mut all: Vec<String> = Vec::new();
    let mut i: usize = 0;
    while i < props_forward.len()
        invariant
            i <= props_forward.len(),
            all.len() == i,
            forall|j: int| 0 <= j < i ==> all[j]@ == props_forward[j]@,
        decreases props_forward.len() - i,
    {
        all.push(props_forward[i].clone());
        i = i + 1;
    }
    let mut k: usize = 0;
    while k < props_backward.len()
        invariant
            k <= props_backward.len(),
            all.len() == props_forward.len() + k,
            forall|j: int| 0 <= j < props_forward.len() ==> all[j]@ == props_forward[j]@,
            forall|j: int| 0 <= j < k ==> all[props_forward.len() + j]@ == props_backward[j]@,
        decreases props_backward.len() - k,
    {
        all.push(props_backward[k].clone());
        k = k + 1;
    }
    assert(texts(all@) =~= texts(props_forward@) + texts(props_backward@));
    unique_strings(&all)
}

/// The prefixes that open a Turtle rendering.
pub open spec fn turtle_prefixes() -> Seq<char> {
    "@prefix rdf: <http://www.w3.org/1999/02/22-rdf-syntax-ns#> .\n        @prefix rdfs: <http://www.w3.org/2000/01/rdf-schema#> .\n        @prefix schema: <http://schema.org/> .\n        @prefix wd: <http://www.wikidata.org/entity/> .\n        @prefix wdt: <http://www.wikidata.org/prop/direct/> ."@
}

/// The Turtle line of one edge: the subject with its label and description,
/// and the edge itself.
pub open spec fn triple_line(
    subject: Seq<char>,
    label: Seq<char>,
    description: Seq<char>,
    predicate: Seq<char>,
    object: Seq<char>,
) -> Seq<char> {
    "\nwd:"@ + subject + " rdfs:label \""@ + label + "\" ; schema:description \""@ + description
        + "\" ; wdt:"@ + predicate + " wd:"@ + object + " ."@
}

/// The Turtle line of one property: its label and description, with their
/// double quotes escaped.
pub open spec fn property_line(prop: Seq<char>, label: Seq<char>, description: Seq<char>) -> Seq<
    char,
> {
    "\nwd:"@ + prop + " rdfs:label \""@ + escaped(label) + "\" ; schema:description \""@ + escaped(
        description,
    ) + "\" ."@
}

/// `text`, with its double quotes escaped where `escape` says so.
pub open spec fn shown(text: Seq<char>, escape: bool) -> Seq<char> {
    if escape {
        escaped(text)
    } else {
        text
    }
}

/// The number of edges that a path and its properties describe together.
pub open spec fn edge_count(path: Seq<Seq<char>>, props: Seq<Seq<char>>) -> nat {
    if path.len() == 0 {
        0
    } else if props.len() < path.len() - 1 {
        props.len()
    } else {
        (path.len() - 1) as nat
    }
}

/// The Turtle lines of the first `count` edges of a path.
pub open spec fn triple_lines(
    glossary: Glossary,
    path: Seq<Seq<char>>,
    props: Seq<Seq<char>>,
    escape: bool,
    count: nat,
) -> Seq<char>
    decreases count,
{
    if count == 0 {
        Seq::empty()
    } else {
        triple_lines(glossary, path, props, escape, (count - 1) as nat) + triple_line(
            path[count - 1],
            shown(glossary.label_of(path[count - 1]), escape),
            shown(glossary.description_of(path[count - 1]), escape),
            props[count - 1],
            path[count as int],
        )
    }
}

/// The Turtle lines of the first `count` of some properties.
pub open spec fn property_lines(glossary: Glossary, props: Seq<Seq<char>>, count: nat) -> Seq<
    char,
>
    decreases count,
{
    if count == 0 {
        Seq::empty()
    } else {
        property_lines(glossary, props, (count - 1) as nat) + property_line(
            props[count - 1],
            glossary.label_of(props[count - 1]),
            glossary.description_of(props[count - 1]),
        )
    }
}

/// The Turtle rendering of a found path: the prefixes, a line for each edge
/// of the forward path, a line for each edge of the backward path, and a line
/// for each property. The labels and descriptions of the forward path are
/// written as they are; all others have their double quotes escaped.
pub open spec fn turtle_text(
    glossary: Glossary,
    path_forward: Seq<Seq<char>>,
    path_backward: Seq<Seq<char>>,
    props_forward: Seq<Seq<char>>,
    props_backward: Seq<Seq<char>>,
) -> Seq<char> {
    let unique = first_occurrences(props_forward + props_backward);
    turtle_prefixes() + triple_lines(
        glossary,
        path_forward,
        props_forward,
        false,
        edge_count(path_forward, props_forward),
    ) + triple_lines(
        glossary,
        path_backward,
        props_backward,
        true,
        edge_count(path_backward, props_backward),
    ) + property_lines(glossary, unique, unique.len())
}

/// Writes the Turtle line of one edge.
fn write_triple(
    subject: &str,
    label: &str,
    description: &str,
    predicate: &str,
    object: &str,
) -> (line: String)
    ensures
        line@ == triple_line(subject@, label@, description@, predicate@, object@),
{
    let mut line = "\nwd:".to_owned();
    line.append(subject);
    line.append(" rdfs:label \"");
    line.append(label);
    line.append("\" ; schema:description \"");
    line.append(description);
    line.append("\" ; wdt:");
    line.append(predicate);
    line.append(" wd:");
    line.append(object);
    line.append(" .");
    line
}

/// Appends the Turtle lines of the edges of a path to `text`.
fn append_triples(
    text: &mut String,
    glossary: &Glossary,
    path: &Vec<String>,
    props: &Vec<String>,
    escape: bool,
)
    ensures
        final(text)@ == old(text)@ + triple_lines(
            *glossary,
            texts(path@),
            texts(props@),
            escape,
            edge_count(texts(path@), texts(props@)),
        ),
{
    let ghost start = text@;
    let count = if path.len() == 0 {
        0
    } else if props.len() < path.len() - 1 {
        props.len()
    } else {
        path.len() - 1
    };
    let mut i: usize = 0;
    while i < count
        invariant
            i <= count,
            count == edge_count(texts(path@), texts(props@)),
            text@ == start + triple_lines(
                *glossary,
                texts(path@),
                texts(props@),
                escape,
                i as nat,
            ),
        decreases count - i,
    {
        let subject = &path[i];
        let label = glossary.label(subject.as_str());
        let description = glossary.description(subject.as_str());
        let label = if escape {
            escape_quotes(label.as_str())
        } else {
            label
        };
        let description = if escape {
            escape_quotes(description.as_str())
        } else {
            description
        };
        let line = write_triple(
            subject.as_str(),
            label.as_str(),
            description.as_str(),
            props[i].as_str(),
            path[i + 1].as_str(),
        );
        text.append(line.as_str());
        i = i + 1;
    }
}

/// Renders a found path as Turtle.
pub fn path_to_turtle(
    glossary: &Glossary,
    path_forward: &Vec<String>,
    path_backward: &Vec<String>,
    props_forward: &Vec<String>,
    props_backward: &Vec<String>,
) -> (turtle: String)
    ensures
        turtle@ == turtle_text(
            *glossary,
            texts(path_forward@),
            texts(path_backward@),
            texts(props_forward@),
            texts(props_backward@),
        ),
{
    let mut text =
        "@prefix rdf: <http://www.w3.org/1999/02/22-rdf-syntax-ns#> .\n        @prefix rdfs: <http://www.w3.org/2000/01/rdf-schema#> .\n        @prefix schema: <http://schema.org/> .\n        @prefix wd: <http://www.wikidata.org/entity/> .\n        @prefix wdt: <http://www.wikidata.org/prop/direct/> .".to_owned();
    append_triples(&mut text, glossary, path_forward, props_forward, false);
    append_triples(&mut text, glossary, path_backward, props_backward, true);
    let unique = unique_props(props_forward, props_backward);
    let ghost start = text@;
    let mut i: usize = 0;
    while i < unique.len()
        invariant
            i <= unique.len(),
            text@ == start + property_lines(*glossary, texts(unique@), i as nat),
        decreases unique.len() - i,
    {
        let prop = &unique[i];
        let label = escape_quotes(glossary.label(prop.as_str()).as_str());
        let description = escape_quotes(glossary.description(prop.as_str()).as_str());
        let mut line = "\nwd:".to_owned();
        line.append(prop.as_str());
        line.append(" rdfs:label \"");
        line.append(label.as_str());
        line.append("\" ; schema:description \"");
        line.append(description.as_str());
        line.append("\" .");
        text.append(line.as_str());
        i = i + 1;
    }
    text
}

/// An entity or a property with its label in brackets.
pub open spec fn named(glossary: Glossary, id: Seq<char>) -> Seq<char> {
    id + " ("@ + glossary.label_of(id) + ")"@
}

/// A step along an edge: the property and the entity that the edge enters.
pub open spec fn forward_step(glossary: Glossary, prop: Seq<char>, entity: Seq<char>) -> Seq<
    char,
> {
    " -"@ + named(glossary, prop) + "-> "@ + named(glossary, entity)
}

/// A step against an edge: the property and the entity that the edge leaves.
pub open spec fn backward_step(glossary: Glossary, prop: Seq<char>, entity: Seq<char>) -> Seq<
    char,
> {
    " <-"@ + named(glossary, prop) + "- "@ + named(glossary, entity)
}

/// The first `count` steps along a path, from its start.
pub open spec fn forward_steps(
    glossary: Glossary,
    path: Seq<Seq<char>>,
    props: Seq<Seq<char>>,
    count: nat,
) -> Seq<char>
    decreases count,
{
    if count == 0 {
        Seq::empty()
    } else {
        forward_steps(glossary, path, props, (count - 1) as nat) + forward_step(
            glossary,
            props[count - 1],
            path[count as int],
        )
    }
}

/// The first `count` steps against a path, from its end.
pub open spec fn backward_steps(
    glossary: Glossary,
    path: Seq<Seq<char>>,
    props: Seq<Seq<char>>,
    count: nat,
) -> Seq<char>
    decreases count,
{
    if count == 0 {
        Seq::empty()
    } else {
        backward_steps(glossary, path, props, (count - 1) as nat) + backward_step(
            glossary,
            props[props.len() - count],
            path[path.len() - 1 - count],
        )
    }
}

/// The line that shows a found path to a reader: the entity it starts at,
/// each step along the forward path, and each step against the backward path
/// from its end. Where there is no forward path, the line starts at the end
/// of the backward path. Two empty paths have no line.
pub open spec fn path_text(
    glossary: Glossary,
    path_forward: Seq<Seq<char>>,
    path_backward: Seq<Seq<char>>,
    props_forward: Seq<Seq<char>>,
    props_backward: Seq<Seq<char>>,
) -> Option<Seq<char>> {
    if path_forward.len() == 0 && path_backward.len() == 0 {
        None
    } else {
        let stub = if path_forward.len() > 0 {
            path_forward[0]
        } else {
            path_backward.last()
        };
        Some(
            named(glossary, stub) + forward_steps(
                glossary,
                path_forward,
                props_forward,
                edge_count(path_forward, props_forward),
            ) + backward_steps(
                glossary,
                path_backward,
                props_backward,
                edge_count(path_backward, props_backward),
            ),
        )
    }
}

/// Writes an entity or a property with its label in brackets.
fn write_named(glossary: &Glossary, id: &str) -> (text: String)
    ensures
        text@ == named(*glossary, id@),
{
    let label = glossary.label(id);
    let mut text = id.to_owned();
    text.append(" (");
    text.append(label.as_str());
    text.append(")");
    text
}

/// Writes one step: an arrow that starts with `before` and ends with `after`,
/// labelled with the property, and the entity behind it.
fn write_step(glossary: &Glossary, before: &str, prop: &str, after: &str, entity: &str) -> (text:
    String)
    ensures
        text@ == before@ + named(*glossary, prop@) + after@ + named(*glossary, entity@),
{
    let prop_text = write_named(glossary, prop);
    let entity_text = write_named(glossary, entity);
    let mut text = before.to_owned();
    text.append(prop_text.as_str());
    text.append(after);
    text.append(entity_text.as_str());
    text
}

/// The number of edges that a path and its properties describe together.
fn count_edges(path: &Vec<String>, props: &Vec<String>) -> (count: usize)
    ensures
        count == edge_count(texts(path@), texts(props@)),
{
    if path.len() == 0 {
        0
    } else if props.len() < path.len() - 1 {
        props.len()
    } else {
        path.len() - 1
    }
}

/// Renders a found path as a line for a reader. Two empty paths have no
/// line.
pub fn path_to_string(
    glossary: &Glossary,
    path_forward: &Vec<String>,
    path_backward: &Vec<String>,
    props_forward: &Vec<String>,
    props_backward: &Vec<String>,
) -> (line: Option<String>)
    ensures
        match line {
            Some(text) => path_text(
                *glossary,
                texts(path_forward@),
                texts(path_backward@),
                texts(props_forward@),
                texts(props_backward@),
            ) == Some(text@),
            None => path_text(
                *glossary,
                texts(path_forward@),
                texts(path_backward@),
                texts(props_forward@),
                texts(props_backward@),
            ) is None,
        },
{
    if path_forward.len() == 0 && path_backward.len() == 0 {
        return None;
    }
    let stub = if path_forward.len() > 0 {
        &path_forward[0]
    } else {
        &path_backward[path_backward.len() - 1]
    };
    let mut text = write_named(glossary, stub.as_str());
    let ghost start = text@;
    let ghost forward = texts(path_forward@);
    let ghost backward = texts(path_backward@);
    let ghost forward_props = texts(props_forward@);
    let ghost backward_props = texts(props_backward@);
    let forward_count = count_edges(path_forward, props_forward);
    let mut i: usize = 0;
    while i < forward_count
        invariant
            i <= forward_count,
            forward == texts(path_forward@),
            forward_props == texts(props_forward@),
            forward_count == edge_count(forward, forward_props),
            text@ == start + forward_steps(*glossary, forward, forward_props, i as nat),
        decreases forward_count - i,
    {
        let step = write_step(
            glossary,
            " -",
            props_forward[i].as_str(),
            "-> ",
            path_forward[i + 1].as_str(),
        );
        text.append(step.as_str());
        i = i + 1;
    }
    let ghost middle = text@;
    let backward_count = count_edges(path_backward, props_backward);
    let mut k: usize = 0;
    while k < backward_count
        invariant
            k <= backward_count,
            backward == texts(path_backward@),
            backward_props == texts(props_backward@),
            backward_count == edge_count(backward, backward_props),
            text@ == middle + backward_steps(*glossary, backward, backward_props, k as nat),
        decreases backward_count - k,
    {
        let prop = &props_backward[props_backward.len() - 1 - k];
        let entity = &path_backward[path_backward.len() - 2 - k];
        let step = write_step(glossary, " <-", prop.as_str(), "- ", entity.as_str());
        text.append(step.as_str());
        k = k + 1;
    }
    Some(text)
}

} // verus!
