//! Parsing the release feed.
//!
//! The feed document is handed to an XML parser once; everything after
//! that — finding the channel fields, walking the release items, deciding
//! which error a malformed document earns — is computed over a flat model
//! of the parsed tree: the nodes in document order, each with its local
//! tag name, its byte range in the source text and its text content. A
//! node lies inside another exactly when its byte range does.

use vstd::prelude::*;
use crate::strutil::str_eq;

verus! {

/// One node of a parsed document, in document order.
pub struct XmlNode {
    /// Local tag name; empty for non-element nodes.
    pub tag: String,
    /// Start of the node's byte range in the source document.
    pub start: usize,
    /// End of the node's byte range in the source document.
    pub end: usize,
    /// The node's text content, when it has one.
    pub text: Option<String>,
}

/// The mathematical value of an `XmlNode`.
pub ghost struct NodeV {
    pub tag: Seq<char>,
    pub start: int,
    pub end: int,
    pub text: Option<Seq<char>>,
}

impl View for XmlNode {
    type V = NodeV;

    open spec fn view(&self) -> NodeV {
        NodeV {
            tag: self.tag@,
            start: self.start as int,
            end: self.end as int,
            text: match self.text {
                Some(t) => Some(t@),
                None => None,
            },
        }
    }
}

impl DeepView for XmlNode {
    type V = NodeV;

    open spec fn deep_view(&self) -> NodeV {
        self@
    }
}

/// The flat node model of a feed document. An unparseable document is
/// modelled as the empty sequence; a parsed one always holds at least its
/// root node.
pub uninterp spec fn xml_nodes_of(s: Seq<char>) -> Seq<NodeV>;

/// Relies on roxmltree::Document::parse and Node::descendants: the parsed
/// document's nodes in document order, each mapped to its local tag name
/// (Node::tag_name), its byte range in the source (Node::range) and its
/// text content (Node::text). Parsing is a function of the document text
/// alone; a document that does not parse yields None.
#[verifier::external_body]
fn parse_xml_nodes(xml: &str) -> (r: Option<Vec<XmlNode>>)
    ensures
        r is Some <==> xml_nodes_of(xml@).len() > 0,
        r is Some ==> r->Some_0.deep_view() == xml_nodes_of(xml@),
{
    let doc = match roxmltree::Document::parse(xml) {
        Ok(d) => d,
        Err(_) => return None,
    };
    Some(doc.descendants().map(|n| XmlNode {
        tag: n.tag_name().name().to_string(),
        start: n.range().start,
        end: n.range().end,
        text: n.text().map(|t| t.to_string()),
    }).collect())
}

/// One release item of the feed.
pub struct FeedItem {
    pub title: String,
    pub link: String,
    pub guid: String,
    pub pub_date: String,
    pub category: String,
    pub file_size: String,
}

/// The mathematical value of a `FeedItem`.
pub ghost struct ItemV {
    pub title: Seq<char>,
    pub link: Seq<char>,
    pub guid: Seq<char>,
    pub pub_date: Seq<char>,
    pub category: Seq<char>,
    pub file_size: Seq<char>,
}

impl View for FeedItem {
    type V = ItemV;

    open spec fn view(&self) -> ItemV {
        ItemV {
            title: self.title@,
            link: self.link@,
            guid: self.guid@,
            pub_date: self.pub_date@,
            category: self.category@,
            file_size: self.file_size@,
        }
    }
}

impl DeepView for FeedItem {
    type V = ItemV;

    open spec fn deep_view(&self) -> ItemV {
        self@
    }
}

impl FeedItem {
    /// A field-by-field copy.
    pub fn duplicate(&self) -> (r: FeedItem)
        ensures
            r@ == self@,
    {
        FeedItem {
            title: self.title.clone(),
            link: self.link.clone(),
            guid: self.guid.clone(),
            pub_date: self.pub_date.clone(),
            category: self.category.clone(),
            file_size: self.file_size.clone(),
        }
    }
}

/// The parsed feed: channel metadata and the release items in document
/// order, newest first.
pub struct SubsPlsChannel {
    pub title: String,
    pub description: String,
    pub items: Vec<FeedItem>,
}

/// The mathematical value of a `SubsPlsChannel`.
pub ghost struct ChannelV {
    pub title: Seq<char>,
    pub description: Seq<char>,
    pub items: Seq<ItemV>,
}

impl View for SubsPlsChannel {
    type V = ChannelV;

    open spec fn view(&self) -> ChannelV {
        ChannelV { title: self.title@, description: self.description@, items: self.items.deep_view() }
    }
}

/// Every way parsing a feed document can fail: one error per missing
/// required field, and one for a document that does not parse at all.
#[derive(Debug, PartialEq, Eq, Structural, Clone, Copy)]
pub enum RssParsingError {
    InvalidRssFeed,
    RssTitleNotFound,
    RssDescriptionNotFound,
    ItemTitleNotFound,
    ItemLinkNotFound,
    ItemGuidNotFound,
    ItemPubDateNotFound,
    ItemCategoryNotFound,
    ItemSizeNotFound,
}

/// Node `j` lies within node `k`: its byte range is contained in `k`'s.
pub open spec fn within(nodes: Seq<NodeV>, k: int, j: int) -> bool {
    nodes[k].start <= nodes[j].start && nodes[j].end <= nodes[k].end
}

/// The first node at or after `j` that lies within node `k` and carries
/// the tag `name`.
pub open spec fn find_desc_from(nodes: Seq<NodeV>, k: int, name: Seq<char>, j: int) -> Option<int>
    decreases nodes.len() - j,
    when 0 <= j <= nodes.len()
{
    if j >= nodes.len() {
        None
    } else if within(nodes, k, j) && nodes[j].tag == name {
        Some(j)
    } else {
        find_desc_from(nodes, k, name, j + 1)
    }
}

/// The text of the first node within node `k` that carries the tag
/// `name`; nothing when there is no such node or it has no text.
pub open spec fn text_in_node(nodes: Seq<NodeV>, k: int, name: Seq<char>) -> Option<Seq<char>> {
    match find_desc_from(nodes, k, name, 0) {
        None => None,
        Some(j) => nodes[j].text,
    }
}

/// Node `j` lies within some `item` node: such a node belongs to a
/// release, never to the channel.
pub open spec fn inside_item(nodes: Seq<NodeV>, j: int) -> bool {
    exists|k: int| 0 <= k < nodes.len() && nodes[k].tag == "item"@ && #[trigger] within(nodes, k, j)
}

/// The first node at or after `j` that carries the tag `name` and does
/// not belong to any item.
pub open spec fn find_channel_tag_from(nodes: Seq<NodeV>, name: Seq<char>, j: int) -> Option<int>
    decreases nodes.len() - j,
    when 0 <= j <= nodes.len()
{
    if j >= nodes.len() {
        None
    } else if nodes[j].tag == name && !inside_item(nodes, j) {
        Some(j)
    } else {
        find_channel_tag_from(nodes, name, j + 1)
    }
}

/// The text of the first channel-level node that carries the tag
/// `name`: a `title` or `description` inside an item cannot stand in
/// for the channel's own.
pub open spec fn channel_text(nodes: Seq<NodeV>, name: Seq<char>) -> Option<Seq<char>> {
    match find_channel_tag_from(nodes, name, 0) {
        None => None,
        Some(j) => nodes[j].text,
    }
}

/// The six required fields of the item rooted at node `k`, or the error
/// of the first missing one.
pub open spec fn item_fields(nodes: Seq<NodeV>, k: int) -> Result<ItemV, RssParsingError> {
    match text_in_node(nodes, k, "title"@) {
        None => Err(RssParsingError::ItemTitleNotFound),
        Some(title) => match text_in_node(nodes, k, "link"@) {
            None => Err(RssParsingError::ItemLinkNotFound),
            Some(link) => match text_in_node(nodes, k, "guid"@) {
                None => Err(RssParsingError::ItemGuidNotFound),
                Some(guid) => match text_in_node(nodes, k, "pubDate"@) {
                    None => Err(RssParsingError::ItemPubDateNotFound),
                    Some(pub_date) => match text_in_node(nodes, k, "category"@) {
                        None => Err(RssParsingError::ItemCategoryNotFound),
                        Some(category) => match text_in_node(nodes, k, "size"@) {
                            None => Err(RssParsingError::ItemSizeNotFound),
                            Some(file_size) => Ok(
                                ItemV { title, link, guid, pub_date, category, file_size },
                            ),
                        },
                    },
                },
            },
        },
    }
}

/// The items among the first `n` nodes, in document order, or the error
/// of the first item with a missing field.
pub open spec fn parse_items_upto(nodes: Seq<NodeV>, n: int) -> Result<
    Seq<ItemV>,
    RssParsingError,
>
    decreases n,
    when 0 <= n <= nodes.len()
{
    if n <= 0 {
        Ok(Seq::empty())
    } else {
        match parse_items_upto(nodes, n - 1) {
            Err(e) => Err(e),
            Ok(items) => if nodes[n - 1].tag == "item"@ {
                match item_fields(nodes, n - 1) {
                    Err(e) => Err(e),
                    Ok(it) => Ok(items.push(it)),
                }
            } else {
                Ok(items)
            },
        }
    }
}

/// What parsing a feed document yields: its channel title and
/// description and its items, or the error of the first thing found
/// missing — items are checked first, then the channel title, then the
/// channel description.
pub open spec fn spec_parse_channel(nodes: Seq<NodeV>) -> Result<ChannelV, RssParsingError> {
    if nodes.len() == 0 {
        Err(RssParsingError::InvalidRssFeed)
    } else {
        match parse_items_upto(nodes, nodes.len() as int) {
            Err(e) => Err(e),
            Ok(items) => match channel_text(nodes, "title"@) {
                None => Err(RssParsingError::RssTitleNotFound),
                Some(title) => match channel_text(nodes, "description"@) {
                    None => Err(RssParsingError::RssDescriptionNotFound),
                    Some(description) => Ok(ChannelV { title, description, items }),
                },
            },
        }
    }
}

proof fn lemma_item_error_persists(nodes: Seq<NodeV>, m: int, n: int)
    requires
        0 <= m <= n <= nodes.len(),
        parse_items_upto(nodes, m) is Err,
    ensures
        parse_items_upto(nodes, n) == parse_items_upto(nodes, m),
    decreases n - m,
{
    if m < n {
        lemma_item_error_persists(nodes, m, n - 1);
    }
}

fn get_text_in_node(nodes: &Vec<XmlNode>, k: usize, name: &str) -> (r: Option<String>)
    requires
        k < nodes@.len(),
    ensures
        r is Some <==> text_in_node(nodes.deep_view(), k as int, name@) is Some,
        r is Some ==> Some(r->Some_0@) == text_in_node(nodes.deep_view(), k as int, name@),
{
    let ghost dv = nodes.deep_view();
    let mut j: usize = 0;
    while j < nodes.len()
        invariant
            j <= nodes@.len(),
            nodes@.len() == dv.len(),
            dv == nodes.deep_view(),
            k < nodes@.len(),
            find_desc_from(dv, k as int, name@, 0) == find_desc_from(dv, k as int, name@, j as int),
        decreases nodes@.len() - j,
    {
        let within_k = nodes[j].start >= nodes[k].start && nodes[j].end <= nodes[k].end;
        if within_k && str_eq(nodes[j].tag.as_str(), name) {
            proof {
                assert(find_desc_from(dv, k as int, name@, j as int) == Some(j as int));
            }
            return match &nodes[j].text {
                Some(t) => Some(t.clone()),
                None => None,
            };
        }
        j += 1;
    }
    None
}

fn node_inside_item(nodes: &Vec<XmlNode>, j: usize) -> (r: bool)
    requires
        j < nodes@.len(),
    ensures
        r == inside_item(nodes.deep_view(), j as int),
{
    let ghost dv = nodes.deep_view();
    let mut k: usize = 0;
    while k < nodes.len()
        invariant
            k <= nodes@.len(),
            nodes@.len() == dv.len(),
            dv == nodes.deep_view(),
            j < nodes@.len(),
            forall|q: int| 0 <= q < k ==> !(dv[q].tag == "item"@ && #[trigger] within(dv, q, j as int)),
        decreases nodes@.len() - k,
    {
        if str_eq(nodes[k].tag.as_str(), "item") && nodes[k].start <= nodes[j].start
            && nodes[j].end <= nodes[k].end {
            proof {
                assert(within(dv, k as int, j as int));
            }
            return true;
        }
        k += 1;
    }
    proof {
        if inside_item(dv, j as int) {
            let q = choose|q: int|
                0 <= q < dv.len() && dv[q].tag == "item"@ && #[trigger] within(dv, q, j as int);
            assert(!(dv[q].tag == "item"@ && within(dv, q, j as int)));
        }
    }
    false
}

fn get_channel_text(nodes: &Vec<XmlNode>, name: &str) -> (r: Option<String>)
    ensures
        r is Some <==> channel_text(nodes.deep_view(), name@) is Some,
        r is Some ==> Some(r->Some_0@) == channel_text(nodes.deep_view(), name@),
{
    let ghost dv = nodes.deep_view();
    let mut j: usize = 0;
    while j < nodes.len()
        invariant
            j <= nodes@.len(),
            nodes@.len() == dv.len(),
            dv == nodes.deep_view(),
            find_channel_tag_from(dv, name@, 0) == find_channel_tag_from(dv, name@, j as int),
        decreases nodes@.len() - j,
    {
        if str_eq(nodes[j].tag.as_str(), name) && !node_inside_item(nodes, j) {
            proof {
                assert(find_channel_tag_from(dv, name@, j as int) == Some(j as int));
            }
            return match &nodes[j].text {
                Some(t) => Some(t.clone()),
                None => None,
            };
        }
        j += 1;
    }
    None
}

impl SubsPlsChannel {
    /// Parses a feed document. The result is exactly what
    /// `spec_parse_channel` assigns to the document's node model:
    /// a distinct error for an unparseable document, for a missing
    /// channel field and for each missing item field, and otherwise the
    /// channel with its items in document order. The channel's title and
    /// description are read only from nodes outside every item, so an
    /// item's own fields cannot mask a missing channel field.
    #[verifier::rlimit(60)]
    pub fn from_xml(xml: &str) -> (r: Result<SubsPlsChannel, RssParsingError>)
        ensures
            r is Ok <==> spec_parse_channel(xml_nodes_of(xml@)) is Ok,
            r is Ok ==> Ok::<ChannelV, RssParsingError>(r->Ok_0@) == spec_parse_channel(
                xml_nodes_of(xml@),
            ),
            r is Err ==> Err::<ChannelV, RssParsingError>(r->Err_0) == spec_parse_channel(
                xml_nodes_of(xml@),
            ),
    {
        let ghost model = xml_nodes_of(xml@);
        let nodes = match parse_xml_nodes(xml) {
            None => {
                return Err(RssParsingError::InvalidRssFeed);
            },
            Some(n) => n,
        };
        let ghost dv = nodes.deep_view();
        let mut items: Vec<FeedItem> = Vec::new();
        proof {
            assert(items.deep_view() =~= Seq::<ItemV>::empty());
        }
        let mut i: usize = 0;
        while i < nodes.len()
            invariant
                i <= nodes@.len(),
                nodes@.len() == dv.len(),
                dv == nodes.deep_view(),
                dv == model,
                model == xml_nodes_of(xml@),
                dv.len() > 0,
                parse_items_upto(dv, i as int) == Ok::<Seq<ItemV>, RssParsingError>(
                    items.deep_view(),
                ),
            decreases nodes@.len() - i,
        {
            let ghost pre = items.deep_view();
            if str_eq(nodes[i].tag.as_str(), "item") {
                let title = match get_text_in_node(&nodes, i, "title") {
                    None => {
                        proof {
                            lemma_item_error_persists(dv, i + 1, dv.len() as int);
                        }
                        return Err(RssParsingError::ItemTitleNotFound);
                    },
                    Some(t) => t,
                };
                let link = match get_text_in_node(&nodes, i, "link") {
                    None => {
                        proof {
                            lemma_item_error_persists(dv, i + 1, dv.len() as int);
                        }
                        return Err(RssParsingError::ItemLinkNotFound);
                    },
                    Some(t) => t,
                };
                let guid = match get_text_in_node(&nodes, i, "guid") {
                    None => {
                        proof {
                            lemma_item_error_persists(dv, i + 1, dv.len() as int);
                        }
                        return Err(RssParsingError::ItemGuidNotFound);
                    },
                    Some(t) => t,
                };
                let pub_date = match get_text_in_node(&nodes, i, "pubDate") {
                    None => {
                        proof {
                            lemma_item_error_persists(dv, i + 1, dv.len() as int);
                        }
                        return Err(RssParsingError::ItemPubDateNotFound);
                    },
                    Some(t) => t,
                };
                let category = match get_text_in_node(&nodes, i, "category") {
                    None => {
                        proof {
                            lemma_item_error_persists(dv, i + 1, dv.len() as int);
                        }
                        return Err(RssParsingError::ItemCategoryNotFound);
                    },
                    Some(t) => t,
                };
                let file_size = match get_text_in_node(&nodes, i, "size") {
                    None => {
                        proof {
                            lemma_item_error_persists(dv, i + 1, dv.len() as int);
                        }
                        return Err(RssParsingError::ItemSizeNotFound);
                    },
                    Some(t) => t,
                };
                items.push(FeedItem { title, link, guid, pub_date, category, file_size });
                proof {
                    assert(items.deep_view() =~= pre.push(items@[items@.len() - 1]@));
                    assert(parse_items_upto(dv, i + 1) == Ok::<Seq<ItemV>, RssParsingError>(
                        items.deep_view(),
                    ));
                }
            }
            i += 1;
        }
        let title = match get_channel_text(&nodes, "title") {
            None => {
                return Err(RssParsingError::RssTitleNotFound);
            },
            Some(t) => t,
        };
        let description = match get_channel_text(&nodes, "description") {
            None => {
                return Err(RssParsingError::RssDescriptionNotFound);
            },
            Some(t) => t,
        };
        let r = SubsPlsChannel { title, description, items };
        proof {
            assert(r@.items =~= r.items.deep_view());
        }
        Ok(r)
    }
}

} // verus!
