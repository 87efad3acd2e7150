//! The tree that a YAML document is read into, and the calls into the YAML
//! parser that produce it.

use crate::text::same_text;
use crate::text::views;
use vstd::prelude::*;
use yaml_rust::ScanError;
use yaml_rust::Yaml;
use yaml_rust::YamlLoader;

verus! {

/// A node of a parsed YAML document.
///
/// A mapping keeps its entries in the order of the document.
#[derive(Debug, PartialEq)]
pub enum YamlNode {
    /// A floating-point scalar, kept as it was written.
    Real(String),
    Integer(i64),
    Text(String),
    Boolean(bool),
    Array(Vec<YamlNode>),
    Hash(Vec<(YamlNode, YamlNode)>),
    Alias(usize),
    Null,
    /// What stands for a node that is not there, or that could not be read.
    BadValue,
}

/// The mathematical value of a `YamlNode`.
pub enum YamlView {
    Real(Seq<char>),
    Integer(i64),
    Text(Seq<char>),
    Boolean(bool),
    Array(Seq<YamlView>),
    Hash(Seq<(YamlView, YamlView)>),
    Alias(usize),
    Null,
    BadValue,
}

/// The views of the entries of a mapping.
pub open spec fn entry_views(entries: Seq<(YamlNode, YamlNode)>) -> Seq<(YamlView, YamlView)> {
    Seq::new(entries.len(), |i: int| (entries[i].0@, entries[i].1@))
}

/// The mathematical value of `node`.
pub open spec fn node_view(node: YamlNode) -> YamlView
    decreases node, 0nat,
{
    match node {
        YamlNode::Real(s) => YamlView::Real(s@),
        YamlNode::Integer(i) => YamlView::Integer(i),
        YamlNode::Text(s) => YamlView::Text(s@),
        YamlNode::Boolean(b) => YamlView::Boolean(b),
        YamlNode::Array(items) => YamlView::Array(first_items(items, items@.len())),
        YamlNode::Hash(entries) => YamlView::Hash(first_entries(entries, entries@.len())),
        YamlNode::Alias(a) => YamlView::Alias(a),
        YamlNode::Null => YamlView::Null,
        YamlNode::BadValue => YamlView::BadValue,
    }
}

/// The values of the first `n` of `items`.
pub open spec fn first_items(items: Vec<YamlNode>, n: nat) -> Seq<YamlView>
    decreases items, n,
{
    if n == 0 || n > items@.len() {
        Seq::empty()
    } else {
        first_items(items, (n - 1) as nat).push(node_view(items@[n - 1]))
    }
}

/// The values of the first `n` of `entries`.
pub open spec fn first_entries(entries: Vec<(YamlNode, YamlNode)>, n: nat) -> Seq<
    (YamlView, YamlView),
>
    decreases entries, n,
{
    if n == 0 || n > entries@.len() {
        Seq::empty()
    } else {
        first_entries(entries, (n - 1) as nat).push(
            (node_view(entries@[n - 1].0), node_view(entries@[n - 1].1)),
        )
    }
}

impl View for YamlNode {
    type V = YamlView;

    open spec fn view(&self) -> YamlView {
        node_view(*self)
    }
}

/// The value of a sequence node holds the values of its items, in order.
pub proof fn lemma_first_items(items: Vec<YamlNode>, n: nat)
    requires
        n <= items@.len(),
    ensures
        first_items(items, n) == views(items@).take(n as int),
    decreases n,
{
    if n > 0 {
        lemma_first_items(items, (n - 1) as nat);
    }
    assert(first_items(items, n) =~= views(items@).take(n as int));
}

/// The value of a mapping node holds the values of its entries, in order.
pub proof fn lemma_first_entries(entries: Vec<(YamlNode, YamlNode)>, n: nat)
    requires
        n <= entries@.len(),
    ensures
        first_entries(entries, n) == entry_views(entries@).take(n as int),
    decreases n,
{
    if n > 0 {
        lemma_first_entries(entries, (n - 1) as nat);
    }
    assert(first_entries(entries, n) =~= entry_views(entries@).take(n as int));
}

/// The value of the first entry whose key is the text `key`; `BadValue` where
/// there is none.
pub open spec fn lookup(entries: Seq<(YamlView, YamlView)>, key: Seq<char>) -> YamlView
    decreases entries.len(),
{
    if entries.len() == 0 {
        YamlView::BadValue
    } else if entries[0].0 == YamlView::Text(key) {
        entries[0].1
    } else {
        lookup(entries.drop_first(), key)
    }
}

impl YamlView {
    /// The entries of a mapping; none for any other node.
    pub open spec fn entries(self) -> Seq<(YamlView, YamlView)> {
        match self {
            YamlView::Hash(entries) => entries,
            _ => Seq::empty(),
        }
    }

    /// The items of a sequence; none for any other node.
    pub open spec fn items(self) -> Seq<YamlView> {
        match self {
            YamlView::Array(items) => items,
            _ => Seq::empty(),
        }
    }

    /// The node under the text key `key` of a mapping; `BadValue` where the
    /// node is no mapping or has no such key.
    pub open spec fn get(self, key: Seq<char>) -> YamlView {
        lookup(self.entries(), key)
    }

    /// The text of a text scalar.
    pub open spec fn as_text(self) -> Option<Seq<char>> {
        match self {
            YamlView::Text(text) => Some(text),
            _ => None,
        }
    }

    /// The text of a text scalar; the empty text for any other node.
    pub open spec fn text_or_empty(self) -> Seq<char> {
        match self {
            YamlView::Text(text) => text,
            _ => Seq::empty(),
        }
    }

    /// The value of a boolean scalar.
    pub open spec fn as_bool(self) -> Option<bool> {
        match self {
            YamlView::Boolean(b) => Some(b),
            _ => None,
        }
    }
}

impl YamlNode {
    /// The entries of a mapping.
    pub fn as_hash(&self) -> (r: Option<&Vec<(YamlNode, YamlNode)>>)
        ensures
            match r {
                Some(entries) => self@ == YamlView::Hash(entry_views(entries@)),
                None => !(self@ is Hash),
            },
    {
        match self {
            YamlNode::Hash(entries) => {
                proof {
                    lemma_first_entries(*entries, entries@.len());
                    assert(entry_views(entries@).take(entries@.len() as int) =~= entry_views(
                        entries@,
                    ));
                }
                Some(entries)
            },
            _ => None,
        }
    }

    /// The items of a sequence.
    pub fn as_vec(&self) -> (r: Option<&Vec<YamlNode>>)
        ensures
            match r {
                Some(items) => self@ == YamlView::Array(views(items@)),
                None => !(self@ is Array),
            },
    {
        match self {
            YamlNode::Array(items) => {
                proof {
                    lemma_first_items(*items, items@.len());
                    assert(views(items@).take(items@.len() as int) =~= views(items@));
                }
                Some(items)
            },
            _ => None,
        }
    }

    /// The text of a text scalar.
    pub fn as_str(&self) -> (r: Option<&str>)
        ensures
            match r {
                Some(text) => self@.as_text() == Some(text@),
                None => self@.as_text() is None,
            },
    {
        match self {
            YamlNode::Text(text) => Some(text.as_str()),
            _ => None,
        }
    }

    /// The value of a boolean scalar.
    pub fn as_bool(&self) -> (r: Option<bool>)
        ensures
            r == self@.as_bool(),
    {
        match self {
            YamlNode::Boolean(b) => Some(*b),
            _ => None,
        }
    }

    /// The node under the text key `key`; `BadValue` where this node is no
    /// mapping or has no such key.
    pub fn get(&self, key: &str) -> (node: &YamlNode)
        ensures
            node@ == self@.get(key@),
    {
        let entries = match self.as_hash() {
            Some(entries) => entries,
            None => {
                return &YamlNode::BadValue;
            },
        };
        let ghost all = entry_views(entries@);
        assert(all.skip(0) =~= all);
        let mut i: usize = 0;
        while i < entries.len()
            invariant
                i <= entries.len(),
                all == entry_views(entries@),
                self@ == YamlView::Hash(all),
                lookup(all, key@) == lookup(all.skip(i as int), key@),
            decreases entries.len() - i,
        {
            let hit = match &entries[i].0 {
                YamlNode::Text(text) => same_text(text.as_str(), key),
                _ => false,
            };
            proof {
                assert(all.skip(i as int)[0] == all[i as int]);
                assert(all.skip(i as int).drop_first() =~= all.skip(i + 1));
                assert(all[i as int].0 == entries@[i as int].0@);
                assert(hit == (all[i as int].0 == YamlView::Text(key@)));
            }
            if hit {
                return &entries[i].1;
            }
            i += 1;
        }
        &YamlNode::BadValue
    }

    /// The text of a text scalar; the empty text for any other node.
    pub fn text_or_empty(&self) -> (text: &str)
        ensures
            text@ == self@.text_or_empty(),
    {
        match self {
            YamlNode::Text(text) => text.as_str(),
            _ => {
                let empty: &'static str = "";
                proof {
                    reveal_strlit("");
                }
                assert(empty@ =~= Seq::<char>::empty());
                empty
            },
        }
    }
}

#[verifier::external_type_specification]
#[verifier::external_body]
pub struct ExYaml(Yaml);

#[verifier::external_type_specification]
#[verifier::external_body]
pub struct ExScanError(ScanError);

/// What `yaml_rust::YamlLoader::load_from_str` makes of a source text: the
/// documents it holds, or nothing where the text is not well-formed YAML.
pub uninterp spec fn yaml_documents(source: Seq<char>) -> Option<Seq<YamlView>>;

/// What `yaml_rust::Yaml::as_f64` followed by the standard formatting of the
/// number makes of the text of a floating-point scalar; nothing where the text
/// is not a number.
pub uninterp spec fn number_text(scalar: Seq<char>) -> Option<Seq<char>>;

/// Moves a `yaml_rust::Yaml` into a `YamlNode`, variant by variant; the
/// entries of a mapping keep the order in which the mapping hands them out.
#[verifier::external_body]
fn node_of(yaml: Yaml) -> YamlNode {
    match yaml {
        Yaml::Real(text) => YamlNode::Real(text),
        Yaml::Integer(number) => YamlNode::Integer(number),
        Yaml::String(text) => YamlNode::Text(text),
        Yaml::Boolean(flag) => YamlNode::Boolean(flag),
        Yaml::Array(items) => YamlNode::Array(items.into_iter().map(node_of).collect()),
        Yaml::Hash(map) => YamlNode::Hash(
            map.into_iter().map(|(k, v)| (node_of(k), node_of(v))).collect(),
        ),
        Yaml::Alias(id) => YamlNode::Alias(id),
        Yaml::Null => YamlNode::Null,
        Yaml::BadValue => YamlNode::BadValue,
    }
}

/// Calls `yaml_rust::YamlLoader::load_from_str`: the documents of `source`,
/// each as a `YamlNode`, or the scanner's error.
#[verifier::external_body]
pub(crate) fn scan_documents(source: &str) -> (r: Result<Vec<YamlNode>, ScanError>)
    ensures
        match r {
            Ok(docs) => yaml_documents(source@) == Some(views(docs@)),
            Err(_) => yaml_documents(source@) is None,
        },
{
    YamlLoader::load_from_str(source).map(|docs| docs.into_iter().map(node_of).collect())
}

/// Calls `yaml_rust::Yaml::as_f64` on a floating-point scalar with the text
/// `scalar` and formats the number: the number's text, or nothing where
/// `scalar` is not a number.
#[verifier::external_body]
pub(crate) fn number_as_text(scalar: &str) -> (r: Option<String>)
    ensures
        match r {
            Some(text) => number_text(scalar@) == Some(text@),
            None => number_text(scalar@) is None,
        },
{
    Yaml::Real(scalar.to_owned()).as_f64().map(|number| format!("{}", number))
}

} // verus!

