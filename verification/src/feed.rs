//! Reading the arXiv RSS feed: the rss crate parses the XML, and each entry
//! it holds is turned into an [`ArxivPaper`] by verified code.

use vstd::prelude::*;

use rss::Channel;

use crate::arxiv;
use crate::arxiv::ArxivPaper;
use crate::arxiv::PaperView;
use crate::text;
use crate::time::Zone;

verus! {

#[verifier::external_type_specification]
#[verifier::external_body]
pub struct ExChannel(rss::Channel);

/// One `<item>` of the feed, as the plain values that the paper is built
/// from.
pub struct FeedItem {
    /// The `<guid>` text.
    pub guid: Option<String>,
    /// The `<link>` text.
    pub link: Option<String>,
    /// The `<title>` text.
    pub title: Option<String>,
    /// The `<description>` text.
    pub description: Option<String>,
    /// The `<pubDate>` text.
    pub pub_date: Option<String>,
    /// The `<category>` names, in order.
    pub categories: Vec<String>,
    /// The Dublin Core creators, when the item carries the Dublin Core
    /// extension.
    pub dc_creators: Option<Vec<String>>,
    /// The item's namespaced extension elements, prefix by prefix.
    pub extensions: Vec<ExtensionGroup>,
}

/// The extension elements of one local name (`<prefix:name>`), in document
/// order, each by its text (`None` for an element without text).
pub struct ExtensionElements {
    pub name: String,
    pub texts: Vec<Option<String>>,
}

/// The extension elements filed under one namespace prefix, name by name.
pub struct ExtensionGroup {
    pub prefix: String,
    pub elements: Vec<ExtensionElements>,
}

/// The plain content of [`ExtensionElements`].
pub struct ExtensionElementsView {
    pub name: Seq<char>,
    pub texts: Seq<Option<Seq<char>>>,
}

/// The plain content of an [`ExtensionGroup`].
pub struct ExtensionGroupView {
    pub prefix: Seq<char>,
    pub elements: Seq<ExtensionElementsView>,
}

/// The plain content of a [`FeedItem`].
pub struct FeedItemView {
    pub guid: Option<Seq<char>>,
    pub link: Option<Seq<char>>,
    pub title: Option<Seq<char>>,
    pub description: Option<Seq<char>>,
    pub pub_date: Option<Seq<char>>,
    pub categories: Seq<Seq<char>>,
    pub dc_creators: Option<Seq<Seq<char>>>,
    pub extensions: Seq<ExtensionGroupView>,
}

/// The characters of an optional string.
pub open spec fn opt_string(o: Option<String>) -> Option<Seq<char>> {
    match o {
        Some(s) => Some(s@),
        None => None,
    }
}

/// The character sequences of an optional list of strings.
pub open spec fn opt_strings(o: Option<Vec<String>>) -> Option<Seq<Seq<char>>> {
    match o {
        Some(v) => Some(text::string_views(v@)),
        None => None,
    }
}

/// The characters of each optional string of a list.
pub open spec fn opt_string_views(v: Seq<Option<String>>) -> Seq<Option<Seq<char>>> {
    v.map_values(|o: Option<String>| opt_string(o))
}

impl View for ExtensionElements {
    type V = ExtensionElementsView;

    open spec fn view(&self) -> ExtensionElementsView {
        ExtensionElementsView { name: self.name@, texts: opt_string_views(self.texts@) }
    }
}

/// The plain content of each entry of a list of extension elements.
pub open spec fn element_views(v: Seq<ExtensionElements>) -> Seq<ExtensionElementsView> {
    v.map_values(|e: ExtensionElements| e@)
}

impl View for ExtensionGroup {
    type V = ExtensionGroupView;

    open spec fn view(&self) -> ExtensionGroupView {
        ExtensionGroupView { prefix: self.prefix@, elements: element_views(self.elements@) }
    }
}

/// The plain content of each group of a list.
pub open spec fn group_views(v: Seq<ExtensionGroup>) -> Seq<ExtensionGroupView> {
    v.map_values(|g: ExtensionGroup| g@)
}

impl View for FeedItem {
    type V = FeedItemView;

    open spec fn view(&self) -> FeedItemView {
        FeedItemView {
            guid: opt_string(self.guid),
            link: opt_string(self.link),
            title: opt_string(self.title),
            description: opt_string(self.description),
            pub_date: opt_string(self.pub_date),
            categories: text::string_views(self.categories@),
            dc_creators: opt_strings(self.dc_creators),
            extensions: group_views(self.extensions@),
        }
    }
}

// ---------------------------------------------------------------------------
// What the rss crate reads
// ---------------------------------------------------------------------------

/// What `rss::Channel::read_from` makes of a document: the items of the
/// feed when it accepts it, else the text of the error it reports.
pub uninterp spec fn rss_feed_items(xml: Seq<char>) -> Result<Seq<FeedItemView>, Seq<char>>;

/// The items that a parsed channel holds, in document order.
pub uninterp spec fn channel_items(ch: Channel) -> Seq<FeedItemView>;

/// `rss::Channel::read_from` on the document's bytes, an error turned into
/// its text (`Display` of `rss::Error`).  Its outcome, the items of the
/// channel it returns and the error's text are those named by
/// `rss_feed_items`.
#[verifier::external_body]
fn read_channel(xml: &str) -> (r: Result<Channel, String>)
    ensures
        r is Ok <==> rss_feed_items(xml@) is Ok,
        r matches Ok(ch) ==> rss_feed_items(xml@) matches Ok(items) && items == channel_items(ch),
        r matches Err(m) ==> rss_feed_items(xml@) matches Err(t) && t == m@,
{
    Channel::read_from(xml.as_bytes()).map_err(|e| e.to_string())
}

/// `rss::Channel::items`: how many items the channel holds.
#[verifier::external_body]
fn item_count(ch: &Channel) -> (n: usize)
    ensures
        n == channel_items(*ch).len(),
{
    ch.items().len()
}

/// `rss::Item::guid` and `rss::Guid::value` of item `i`.
#[verifier::external_body]
fn item_guid(ch: &Channel, i: usize) -> (r: Option<String>)
    requires
        i < channel_items(*ch).len(),
    ensures
        opt_string(r) == channel_items(*ch)[i as int].guid,
{
    ch.items()[i].guid().map(|g| g.value().to_string())
}

/// `rss::Item::link` of item `i`.
#[verifier::external_body]
fn item_link(ch: &Channel, i: usize) -> (r: Option<String>)
    requires
        i < channel_items(*ch).len(),
    ensures
        opt_string(r) == channel_items(*ch)[i as int].link,
{
    ch.items()[i].link().map(|s| s.to_string())
}

/// `rss::Item::title` of item `i`.
#[verifier::external_body]
fn item_title(ch: &Channel, i: usize) -> (r: Option<String>)
    requires
        i < channel_items(*ch).len(),
    ensures
        opt_string(r) == channel_items(*ch)[i as int].title,
{
    ch.items()[i].title().map(|s| s.to_string())
}

/// `rss::Item::description` of item `i`.
#[verifier::external_body]
fn item_description(ch: &Channel, i: usize) -> (r: Option<String>)
    requires
        i < channel_items(*ch).len(),
    ensures
        opt_string(r) == channel_items(*ch)[i as int].description,
{
    ch.items()[i].description().map(|s| s.to_string())
}

/// `rss::Item::pub_date` of item `i`.
#[verifier::external_body]
fn item_pub_date(ch: &Channel, i: usize) -> (r: Option<String>)
    requires
        i < channel_items(*ch).len(),
    ensures
        opt_string(r) == channel_items(*ch)[i as int].pub_date,
{
    ch.items()[i].pub_date().map(|s| s.to_string())
}

/// `rss::Item::categories` and `rss::Category::name` of item `i`.
#[verifier::external_body]
fn item_categories(ch: &Channel, i: usize) -> (r: Vec<String>)
    requires
        i < channel_items(*ch).len(),
    ensures
        text::string_views(r@) == channel_items(*ch)[i as int].categories,
{
    ch.items()[i].categories().iter().map(|c| c.name().to_string()).collect()
}

/// `rss::Item::dublin_core_ext` and
/// `rss::extension::dublincore::DublinCoreExtension::creators` of item `i`.
#[verifier::external_body]
fn item_dc_creators(ch: &Channel, i: usize) -> (r: Option<Vec<String>>)
    requires
        i < channel_items(*ch).len(),
    ensures
        opt_strings(r) == channel_items(*ch)[i as int].dc_creators,
{
    ch.items()[i].dublin_core_ext().map(|dc| dc.creators().to_vec())
}

/// `rss::Item::extensions` of item `i`: the whole extension map, prefixes
/// and names in the map's key order, each element by its text
/// (`rss::extension::Extension::value`).
#[verifier::external_body]
fn item_extensions(ch: &Channel, i: usize) -> (r: Vec<ExtensionGroup>)
    requires
        i < channel_items(*ch).len(),
    ensures
        group_views(r@) == channel_items(*ch)[i as int].extensions,
{
    ch.items()[i].extensions().iter().map(|(prefix, names)| ExtensionGroup {
        prefix: prefix.clone(),
        elements: names.iter().map(|(name, exts)| ExtensionElements {
            name: name.clone(),
            texts: exts.iter().map(|e| e.value().map(|t| t.to_string())).collect(),
        }).collect(),
    }).collect()
}

// ---------------------------------------------------------------------------
// From items to papers
// ---------------------------------------------------------------------------

/// The texts that are present, in order.
pub open spec fn present(v: Seq<Option<Seq<char>>>) -> Seq<Seq<char>>
    decreases v.len(),
{
    if v.len() == 0 {
        seq![]
    } else {
        let rest = present(v.drop_last());
        match v.last() {
            Some(s) => rest.push(s),
            None => rest,
        }
    }
}

/// The elements filed under `prefix`: those of the first group with that
/// prefix (an extension map holds each prefix once).
pub open spec fn elements_under(groups: Seq<ExtensionGroupView>, prefix: Seq<char>) -> Option<
    Seq<ExtensionElementsView>,
>
    decreases groups.len(),
{
    if groups.len() == 0 {
        None
    } else if groups[0].prefix == prefix {
        Some(groups[0].elements)
    } else {
        elements_under(groups.drop_first(), prefix)
    }
}

/// The texts of the elements named `name`: those of the first entry with
/// that name (a group holds each name once).
pub open spec fn texts_named(elements: Seq<ExtensionElementsView>, name: Seq<char>) -> Option<
    Seq<Option<Seq<char>>>,
>
    decreases elements.len(),
{
    if elements.len() == 0 {
        None
    } else if elements[0].name == name {
        Some(elements[0].texts)
    } else {
        texts_named(elements.drop_first(), name)
    }
}

/// The texts of the `<prefix:name>` elements of an extension map, when it
/// has any.
pub open spec fn extension_texts(groups: Seq<ExtensionGroupView>, prefix: Seq<char>, name: Seq<
    char,
>) -> Option<Seq<Option<Seq<char>>>> {
    match elements_under(groups, prefix) {
        Some(es) => texts_named(es, name),
        None => None,
    }
}

/// The texts of an item's raw `dc:creator` elements (none when absent).
pub open spec fn creator_texts_of(item: FeedItemView) -> Seq<Option<Seq<char>>> {
    match extension_texts(item.extensions, "dc"@, "creator"@) {
        Some(ts) => ts,
        None => seq![],
    }
}

/// The text of an item's first `arxiv:announce_type` element, if it has one.
pub open spec fn announce_text_of(item: FeedItemView) -> Option<Seq<char>> {
    match extension_texts(item.extensions, "arxiv"@, "announce_type"@) {
        Some(ts) => if ts.len() > 0 {
            ts[0]
        } else {
            None
        },
        None => None,
    }
}

/// The author string of an item: its Dublin Core creators when it has some,
/// else the texts of its raw `dc:creator` elements; joined with ", " and
/// whitespace-collapsed.
pub open spec fn creators_of(item: FeedItemView) -> Seq<char> {
    match item.dc_creators {
        Some(cs) => if cs.len() > 0 {
            text::collapse(text::join(cs, text::comma_space()))
        } else {
            text::collapse(text::join(present(creator_texts_of(item)), text::comma_space()))
        },
        None => text::collapse(text::join(present(creator_texts_of(item)), text::comma_space())),
    }
}

/// The announce type of an item: its `arxiv:announce_type` text trimmed and
/// lower-cased (empty when absent).
pub open spec fn announce_type_of(item: FeedItemView) -> Seq<char> {
    text::lowercase(
        text::trim(
            match announce_text_of(item) {
                Some(t) => t,
                None => seq![],
            },
        ),
    )
}

/// The abstract page of an id.
pub open spec fn default_link(id: Seq<char>) -> Seq<char> {
    "https://arxiv.org/abs/"@ + id
}

/// The paper an item describes, dates read in `zone`.
pub open spec fn paper_of(item: FeedItemView, zone: Seq<char>) -> PaperView {
    let id = arxiv::parse_id_of(item.guid, item.link);
    PaperView {
        id: id,
        title: text::collapse(
            match item.title {
                Some(t) => t,
                None => seq![],
            },
        ),
        authors: creators_of(item),
        abstract_text: arxiv::parse_abstract_of(item.description),
        link: match item.link {
            Some(l) => l,
            None => default_link(id),
        },
        announce_type: announce_type_of(item),
        announce_date: arxiv::announce_date_of(item.pub_date, zone),
        categories: item.categories,
    }
}

/// A string slice of an optional string.
fn as_opt_str(o: &Option<String>) -> (r: Option<&str>)
    ensures
        arxiv::opt_view(r) == opt_string(*o),
{
    match o {
        Some(s) => Some(s.as_str()),
        None => None,
    }
}

/// Where the group with `prefix` stands, if there is one.
fn group_index(groups: &Vec<ExtensionGroup>, prefix: &String) -> (r: Option<usize>)
    ensures
        match r {
            Some(g) => g < groups@.len() && elements_under(group_views(groups@), prefix@) == Some(
                groups@[g as int]@.elements,
            ),
            None => elements_under(group_views(groups@), prefix@) is None,
        },
{
    let ghost all = group_views(groups@);
    let n = groups.len();
    let mut i: usize = 0;
    assert(all.skip(0) =~= all);
    while i < n
        invariant
            n == groups@.len(),
            all == group_views(groups@),
            i <= n,
            elements_under(all, prefix@) == elements_under(all.skip(i as int), prefix@),
        decreases n - i,
    {
        assert(all.skip(i as int)[0] == groups@[i as int]@);
        if groups[i].prefix == *prefix {
            return Some(i);
        }
        assert(all.skip(i as int).drop_first() =~= all.skip(i as int + 1));
        i = i + 1;
    }
    assert(all.skip(n as int).len() == 0);
    None
}

/// Where the entry named `name` stands, if there is one.
fn element_index(elements: &Vec<ExtensionElements>, name: &String) -> (r: Option<usize>)
    ensures
        match r {
            Some(e) => e < elements@.len() && texts_named(element_views(elements@), name@) == Some(
                elements@[e as int]@.texts,
            ),
            None => texts_named(element_views(elements@), name@) is None,
        },
{
    let ghost all = element_views(elements@);
    let n = elements.len();
    let mut i: usize = 0;
    assert(all.skip(0) =~= all);
    while i < n
        invariant
            n == elements@.len(),
            all == element_views(elements@),
            i <= n,
            texts_named(all, name@) == texts_named(all.skip(i as int), name@),
        decreases n - i,
    {
        assert(all.skip(i as int)[0] == elements@[i as int]@);
        if elements[i].name == *name {
            return Some(i);
        }
        assert(all.skip(i as int).drop_first() =~= all.skip(i as int + 1));
        i = i + 1;
    }
    assert(all.skip(n as int).len() == 0);
    None
}

/// Where the `<prefix:name>` elements of an extension map stand: the group
/// and the entry within it.
fn extension_position(groups: &Vec<ExtensionGroup>, prefix: &String, name: &String) -> (r: Option<
    (usize, usize),
>)
    ensures
        match r {
            Some((g, e)) => g < groups@.len() && e < groups@[g as int].elements@.len()
                && extension_texts(group_views(groups@), prefix@, name@) == Some(
                groups@[g as int].elements@[e as int]@.texts,
            ),
            None => extension_texts(group_views(groups@), prefix@, name@) is None,
        },
{
    match group_index(groups, prefix) {
        Some(g) => {
            assert(groups@[g as int]@.elements == element_views(groups@[g as int].elements@));
            match element_index(&groups[g].elements, name) {
                Some(e) => Some((g, e)),
                None => None,
            }
        },
        None => None,
    }
}

/// A string holding the given literal's characters.
fn owned(lit: &str) -> (s: String)
    ensures
        s@ == lit@,
{
    String::from_str(lit)
}

/// `dc:creator` — a single comma-separated author string. Read from the Dublin
/// Core extension, falling back to the raw namespaced extension map.
pub fn creators(item: &FeedItem) -> (out: String)
    ensures
        out@ == creators_of(item@),
{
    let sep = text::chars_of(", ");
    proof {
        reveal_strlit(", ");
    }
    assert(sep@ =~= text::comma_space());
    if let Some(cs) = &item.dc_creators {
        if cs.len() > 0 {
            let joined = text::join_strings(cs, &sep);
            let out = text::collapse_chars(&joined);
            return text::string_from_chars(out.as_slice());
        }
    }
    let empty: Vec<Option<String>> = Vec::new();
    let dc = owned("dc");
    let creator = owned("creator");
    let elems = match extension_position(&item.extensions, &dc, &creator) {
        Some((g, e)) => &item.extensions[g].elements[e].texts,
        None => &empty,
    };
    assert(opt_string_views(elems@) == creator_texts_of(item@));
    let n = elems.len();
    let mut names: Vec<String> = Vec::new();
    let mut i: usize = 0;
    while i < n
        invariant
            n == elems@.len(),
            i <= n,
            text::string_views(names@) == present(opt_string_views(elems@.take(i as int))),
        decreases n - i,
    {
        let ghost before = opt_string_views(elems@.take(i as int));
        assert(opt_string_views(elems@.take(i as int + 1)) =~= before.push(
            opt_string(elems@[i as int]),
        ));
        assert(before.push(opt_string(elems@[i as int])).drop_last() =~= before);
        let ghost old_names = names@;
        if let Some(e) = &elems[i] {
            let c = e.clone();
            names.push(c);
            assert(text::string_views(names@) =~= text::string_views(old_names).push(e@));
        }
        i = i + 1;
    }
    assert(elems@.take(n as int) =~= elems@);
    let joined = text::join_strings(&names, &sep);
    let out = text::collapse_chars(&joined);
    text::string_from_chars(out.as_slice())
}

/// Read the custom `<arxiv:announce_type>` element: trimmed and lower-cased.
pub fn announce_type(item: &FeedItem) -> (out: String)
    ensures
        out@ == announce_type_of(item@),
{
    let arxiv = owned("arxiv");
    let name = owned("announce_type");
    let empty = String::new();
    let first: &str = match extension_position(&item.extensions, &arxiv, &name) {
        Some((g, e)) => {
            let texts = &item.extensions[g].elements[e].texts;
            if texts.len() > 0 {
                assert(opt_string_views(texts@)[0] == opt_string(texts@[0]));
                match &texts[0] {
                    Some(t) => t.as_str(),
                    None => empty.as_str(),
                }
            } else {
                empty.as_str()
            }
        },
        None => empty.as_str(),
    };
    let trimmed = text::trim_str(first);
    text::to_lowercase(trimmed.as_str())
}

/// The paper an item describes, its date read in `tz`.
pub fn paper_from_item(item: &FeedItem, tz: &Zone) -> (p: ArxivPaper)
    ensures
        p@ == paper_of(item@, tz.name_view()),
{
    let id = arxiv::parse_id(as_opt_str(&item.guid), as_opt_str(&item.link));
    let link = match &item.link {
        Some(l) => l.clone(),
        None => {
            let mut l = String::from_str("https://arxiv.org/abs/");
            l.append(id.as_str());
            l
        },
    };
    let title = match &item.title {
        Some(t) => text::collapse_whitespace(t.as_str()),
        None => {
            let e = String::new();
            text::collapse_whitespace(e.as_str())
        },
    };
    let categories = arxiv::copy_strings(&item.categories);
    ArxivPaper {
        id: id,
        title: title,
        authors: creators(item),
        abstract_text: arxiv::parse_abstract(as_opt_str(&item.description)),
        link: link,
        announce_type: announce_type(item),
        announce_date: arxiv::date_in_timezone(as_opt_str(&item.pub_date), tz),
        categories: categories,
    }
}

/// Item `i` of a parsed channel.
fn item_at(ch: &Channel, i: usize) -> (item: FeedItem)
    requires
        i < channel_items(*ch).len(),
    ensures
        item@ == channel_items(*ch)[i as int],
{
    FeedItem {
        guid: item_guid(ch, i),
        link: item_link(ch, i),
        title: item_title(ch, i),
        description: item_description(ch, i),
        pub_date: item_pub_date(ch, i),
        categories: item_categories(ch, i),
        dc_creators: item_dc_creators(ch, i),
        extensions: item_extensions(ch, i),
    }
}

/// Why a feed could not be read.
#[derive(Debug, Clone, PartialEq, Eq)]
pub enum FeedError {
    /// The document is not an RSS feed the rss crate accepts; the text is
    /// the error the rss crate reports.
    Unreadable(String),
}

/// The papers of a list of items, in order.
pub open spec fn papers_of(items: Seq<FeedItemView>, zone: Seq<char>) -> Seq<PaperView> {
    items.map_values(|it: FeedItemView| paper_of(it, zone))
}

/// Parse a feed XML document into papers. Pure: no network, no clock.
pub fn parse_feed(xml: &str, tz: &Zone) -> (r: Result<Vec<ArxivPaper>, FeedError>)
    ensures
        r is Ok <==> rss_feed_items(xml@) is Ok,
        r matches Ok(ps) ==> rss_feed_items(xml@) matches Ok(items) && arxiv::paper_views(ps@)
            == papers_of(items, tz.name_view()),
        r matches Err(FeedError::Unreadable(m)) ==> rss_feed_items(xml@) matches Err(t) && t
            == m@,
{
    let ch = match read_channel(xml) {
        Ok(ch) => ch,
        Err(m) => return Err(FeedError::Unreadable(m)),
    };
    let n = item_count(&ch);
    let ghost items = channel_items(ch);
    let mut out: Vec<ArxivPaper> = Vec::new();
    let mut i: usize = 0;
    while i < n
        invariant
            n == items.len(),
            items == channel_items(ch),
            i <= n,
            arxiv::paper_views(out@) == papers_of(items.take(i as int), tz.name_view()),
        decreases n - i,
    {
        let item = item_at(&ch, i);
        let p = paper_from_item(&item, tz);
        let ghost old_out = arxiv::paper_views(out@);
        out.push(p);
        assert(arxiv::paper_views(out@) =~= old_out.push(p@));
        assert(papers_of(items.take(i as int + 1), tz.name_view()) =~= papers_of(
            items.take(i as int),
            tz.name_view(),
        ).push(paper_of(items[i as int], tz.name_view())));
        i = i + 1;
    }
    assert(items.take(n as int) =~= items);
    Ok(out)
}

} // verus!
