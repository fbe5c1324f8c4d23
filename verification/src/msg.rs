//! What a message about a proposal says and where its formatting lies.

use crate::data::{FCPInfo, Proposal};
use crate::text::{decimal, decimal_string, lex_order, push_char, sort_texts, texts, unit_len, units};
use telegram_bot::RawMessageEntity;
use vstd::prelude::*;
use vstd::relations::sorted_by;
use vstd::seq_lib::*;
use vstd::std_specs::iter::IteratorSpec;
use vstd::string::*;

verus! {

/// Version of the message layout. A message written under another version
/// is written again even where the proposal has not changed.
pub const MSG_FORMAT: usize = 1;

/// `telegram_bot::User`, a user of the transport. No message of this
/// library names one: the type only stands in a field of the entity, and
/// nothing is said of what it holds.
#[verifier::external_type_specification]
#[verifier::external_body]
pub struct ExUser(telegram_bot::User);

/// `telegram_bot::RawMessageEntity`, one formatted stretch of a message as
/// the transport reads it. Its fields are public and are read as they are
/// declared: the name of the formatting, offset and length in 16-bit code
/// units, the address of a text link, and a user.
#[verifier::external_type_specification]
pub struct ExRawMessageEntity(RawMessageEntity);

/// How a piece of a message is formatted.
pub enum TokenMeta {
    Bold,
    Url,
    TextLink(String),
    Hashtag,
}

impl Clone for TokenMeta {
    fn clone(&self) -> (r: Self)
        ensures
            r@ == self@,
    {
        match self {
            TokenMeta::Bold => TokenMeta::Bold,
            TokenMeta::Url => TokenMeta::Url,
            TokenMeta::TextLink(u) => TokenMeta::TextLink(u.clone()),
            TokenMeta::Hashtag => TokenMeta::Hashtag,
        }
    }
}

/// A formatting as plain values.
pub enum Style {
    Bold,
    Url,
    TextLink(Seq<char>),
    Hashtag,
}

impl View for TokenMeta {
    type V = Style;

    open spec fn view(&self) -> Style {
        match self {
            TokenMeta::Bold => Style::Bold,
            TokenMeta::Url => Style::Url,
            TokenMeta::TextLink(u) => Style::TextLink(u@),
            TokenMeta::Hashtag => Style::Hashtag,
        }
    }
}

/// A formatted stretch of a message, measured in 16-bit code units from the
/// start of the text.
pub struct Span {
    pub style: Style,
    pub offset: int,
    pub length: int,
}

/// What a message entity holds, as plain values.
pub struct EntityView {
    pub kind: Seq<char>,
    pub offset: int,
    pub length: int,
    pub url: Option<Seq<char>>,
    pub has_user: bool,
}

/// The plain values of a message entity.
pub open spec fn entity_view(e: RawMessageEntity) -> EntityView {
    EntityView {
        kind: e.type_@,
        offset: e.offset as int,
        length: e.length as int,
        url: match e.url {
            Some(u) => Some(u@),
            None => None,
        },
        has_user: e.user is Some,
    }
}

/// The plain values of each of a list of message entities.
pub open spec fn entity_views(v: Seq<RawMessageEntity>) -> Seq<EntityView> {
    v.map_values(|e: RawMessageEntity| entity_view(e))
}

/// The name by which the transport knows a formatting.
pub open spec fn kind_name(style: Style) -> Seq<char> {
    match style {
        Style::Bold => "bold"@,
        Style::Url => "url"@,
        Style::TextLink(_) => "text_link"@,
        Style::Hashtag => "hashtag"@,
    }
}

/// The message entity that stands for a span: the name of its formatting,
/// its offset and length, the address where it is a text link, and no user.
pub open spec fn span_entity(span: Span) -> EntityView {
    EntityView {
        kind: kind_name(span.style),
        offset: span.offset,
        length: span.length,
        url: match span.style {
            Style::TextLink(u) => Some(u),
            _ => None,
        },
        has_user: false,
    }
}

impl TokenMeta {
    /// The message entity for a stretch of `length` code units at `offset`
    /// that is formatted in this way.
    pub fn entity(self, offset: i64, length: i64) -> (e: RawMessageEntity)
        ensures
            entity_view(e) == span_entity(
                Span { style: self@, offset: offset as int, length: length as int },
            ),
    {
        let (type_, url) = match self {
            TokenMeta::Bold => ("bold", None),
            TokenMeta::Url => ("url", None),
            TokenMeta::TextLink(u) => ("text_link", Some(u)),
            TokenMeta::Hashtag => ("hashtag", None),
        };
        RawMessageEntity { type_: type_.to_owned(), offset, length, url, user: None }
    }
}

/// The three groups into which the tags of a proposal fall.
#[derive(Debug, Clone, Copy, PartialEq, Eq, Structural)]
pub enum TagKind {
    /// Tags that begin with `T-`.
    Team,
    /// Tags whose second character is `-` and whose first is not `T`.
    Category,
    /// All other tags, those of fewer than two characters among them.
    Other,
}

/// The group of a tag.
pub open spec fn tag_kind(tag: Seq<char>) -> TagKind {
    if tag.len() >= 2 && tag[1] == '-' {
        if tag[0] == 'T' {
            TagKind::Team
        } else {
            TagKind::Category
        }
    } else {
        TagKind::Other
    }
}

/// The tags of one group, in lexicographic order by code point.
pub open spec fn bucket(tags: Seq<Seq<char>>, kind: TagKind) -> Seq<Seq<char>> {
    tags.filter(|t: Seq<char>| tag_kind(t) == kind).sort_by(lex_order())
}

/// A tag as a hashtag: `#`, then the tag with `_` in place of each `-`.
pub open spec fn hashtag(tag: Seq<char>) -> Seq<char> {
    seq!['#'] + tag.map_values(
        |c: char|
            if c == '-' {
                '_'
            } else {
                c
            },
    )
}

/// The group of a tag.
pub fn tag_kind_of(tag: &str) -> (kind: TagKind)
    ensures
        kind == tag_kind(tag@),
{
    broadcast use group_string_axioms;

    let mut it = tag.chars();
    let first = it.next();
    let second = it.next();
    match (first, second) {
        (Some(a), Some(b)) => {
            assert(a == tag@[0] && b == tag@[1]);
            if b == '-' {
                if a == 'T' {
                    TagKind::Team
                } else {
                    TagKind::Category
                }
            } else {
                TagKind::Other
            }
        },
        _ => TagKind::Other,
    }
}

/// A tag as a hashtag.
pub fn hashtag_of(tag: &str) -> (s: String)
    ensures
        s@ == hashtag(tag@),
{
    let mut s = String::new();
    push_char(&mut s, '#');
    for c in it: tag.chars()
        invariant
            it.seq() == tag@,
            s@ == hashtag(tag@.take(it.index() as int)),
    {
        push_char(
            &mut s,
            if c == '-' {
                '_'
            } else {
                c
            },
        );
        assert(s@ =~= hashtag(tag@.take(it.index() + 1)));
    }
    assert(tag@.take(tag@.len() as int) =~= tag@);
    s
}

/// The tags of one group, in the order of the list.
fn tags_of_kind(tags: &Vec<String>, kind: TagKind) -> (r: Vec<String>)
    ensures
        texts(r@) == texts(tags@).filter(|t: Seq<char>| tag_kind(t) == kind),
{
    let ghost pred = |t: Seq<char>| tag_kind(t) == kind;
    let mut r: Vec<String> = Vec::new();
    let mut i: usize = 0;
    proof {
        reveal(Seq::filter);
        assert(texts(tags@).take(0) =~= Seq::<Seq<char>>::empty());
    }
    while i < tags.len()
        invariant
            i <= tags.len(),
            pred == (|t: Seq<char>| tag_kind(t) == kind),
            texts(r@) == texts(tags@).take(i as int).filter(pred),
        decreases tags.len() - i,
    {
        proof {
            reveal(Seq::filter);
            assert(texts(tags@).take(i + 1).drop_last() =~= texts(tags@).take(i as int));
        }
        if tag_kind_of(tags[i].as_str()) == kind {
            let tag = tags[i].clone();
            assert(texts(r@.push(tag)) =~= texts(r@).push(tag@));
            r.push(tag);
        }
        i += 1;
    }
    assert(texts(tags@).take(i as int) =~= texts(tags@));
    r
}

/// A piece of a message: its text and, where it is formatted, how.
pub struct Fragment {
    pub text: Seq<char>,
    pub style: Option<Style>,
}

/// A piece of text without formatting.
pub open spec fn plain(text: Seq<char>) -> Fragment {
    Fragment { text, style: None }
}

/// A piece of text with a formatting.
pub open spec fn styled(text: Seq<char>, style: Style) -> Fragment {
    Fragment { text, style: Some(style) }
}

/// The pieces of a list with a single space between each two neighbours.
pub open spec fn spaced(items: Seq<Fragment>) -> Seq<Fragment>
    decreases items.len(),
{
    if items.len() == 0 {
        seq![]
    } else if items.len() == 1 {
        items
    } else {
        spaced(items.drop_last()).push(plain(" "@)).push(items.last())
    }
}

/// A tag in a message: its hashtag, formatted as one.
pub open spec fn hashtag_piece(tag: Seq<char>) -> Fragment {
    styled(hashtag(tag), Style::Hashtag)
}

/// The line of hashtags for the tags of one group: nothing where the group
/// is empty, else the hashtags with spaces between them and a line break.
pub open spec fn bucket_line(tags: Seq<Seq<char>>) -> Seq<Fragment> {
    if tags.len() == 0 {
        seq![]
    } else {
        spaced(tags.map_values(|t: Seq<char>| hashtag_piece(t))).push(plain("\n"@))
    }
}

/// The address of the proposal's issue or pull request.
pub open spec fn link(p: Proposal) -> Seq<char> {
    "https://github.com/"@ + p.repo + "/"@ + (if p.is_pr {
        "pull"@
    } else {
        "issues"@
    }) + "/"@ + decimal(p.issue)
}

/// How a user is named in a message.
pub open spec fn mention(login: Seq<char>) -> Seq<char> {
    seq!['@'] + login
}

/// The address of a user's profile.
pub open spec fn profile(login: Seq<char>) -> Seq<char> {
    "https://github.com/"@ + login
}

/// The invisible end of a message: one zero-width space for each version
/// of the layout up to the present one.
pub open spec fn marker(format: nat) -> Seq<char> {
    Seq::new(format, |i: int| '\u{200B}')
}

/// A user in a message: the mention, linked to the profile or plain.
pub open spec fn user_piece(login: Seq<char>, linked: bool) -> Fragment {
    if linked {
        styled(mention(login), Style::TextLink(profile(login)))
    } else {
        plain(mention(login))
    }
}

/// The users of a list with spaces between them.
pub open spec fn user_line(logins: Seq<Seq<char>>, linked: bool) -> Seq<Fragment> {
    spaced(logins.map_values(|l: Seq<char>| user_piece(l, linked)))
}

/// The pieces of the message about a proposal: the title in bold and the
/// link, a line of hashtags for each group of tags that is not empty, a
/// rule, the users whose approval is pending, each linked to their profile,
/// those who approved, and the marker.
pub open spec fn fragments(p: Proposal) -> Seq<Fragment> {
    let header = seq![
        styled(p.title, Style::Bold),
        plain("\n"@),
        styled(link(p), Style::Url),
        plain("\n\n"@),
    ];
    let tags = bucket_line(bucket(p.tags, TagKind::Team)) + bucket_line(
        bucket(p.tags, TagKind::Category),
    ) + bucket_line(bucket(p.tags, TagKind::Other));
    let pending = seq![plain("--------\n\u{23F3} "@)] + user_line(p.pending, true);
    let approved = seq![plain("\n\u{2705} "@)] + user_line(p.approved, false);
    let end = seq![plain("\n"@), plain(marker(MSG_FORMAT as nat))];
    header + tags + pending + approved + end
}

/// The piece that a token stands for.
pub open spec fn token_view(token: (String, Option<TokenMeta>)) -> Fragment {
    Fragment {
        text: token.0@,
        style: match token.1 {
            Some(m) => Some(m@),
            None => None,
        },
    }
}

/// The pieces that a list of tokens stands for.
pub open spec fn token_views(tokens: Seq<(String, Option<TokenMeta>)>) -> Seq<Fragment> {
    tokens.map_values(|t: (String, Option<TokenMeta>)| token_view(t))
}

/// Appends a token to the list.
fn push_token(tokens: &mut Vec<(String, Option<TokenMeta>)>, text: String, meta: Option<TokenMeta>)
    ensures
        token_views(final(tokens)@) == token_views(old(tokens)@).push(token_view((text, meta))),
{
    tokens.push((text, meta));
    assert(token_views(tokens@) =~= token_views(old(tokens)@).push(token_view((text, meta))));
}

/// Appends a token without formatting to the list.
fn push_plain(tokens: &mut Vec<(String, Option<TokenMeta>)>, text: &str)
    ensures
        token_views(final(tokens)@) == token_views(old(tokens)@).push(plain(text@)),
{
    push_token(tokens, text.to_owned(), None);
}

/// Appends the tokens of `items` to the list, with a space between each two
/// neighbours.
fn push_spaced(
    tokens: &mut Vec<(String, Option<TokenMeta>)>,
    items: Vec<(String, Option<TokenMeta>)>,
)
    ensures
        token_views(final(tokens)@) == token_views(old(tokens)@) + spaced(token_views(items@)),
{
    let ghost start = token_views(tokens@);
    let ghost pieces = token_views(items@);
    let mut first = true;
    assert(token_views(tokens@) =~= start + spaced(pieces.take(0)));
    for item in it: items
        invariant
            it.seq() == items@,
            first == (it.index() == 0),
            pieces == token_views(items@),
            token_views(tokens@) == start + spaced(pieces.take(it.index() as int)),
    {
        let ghost i = it.index() as int;
        if !first {
            push_plain(tokens, " ");
        }
        first = false;
        push_token(tokens, item.0, item.1);
        proof {
            assert(pieces.take(i + 1).drop_last() =~= pieces.take(i));
            if i == 0 {
                assert(pieces.take(0) =~= Seq::<Fragment>::empty());
                assert(spaced(pieces.take(1)) =~= seq![pieces[0]]);
            }
            assert(token_views(tokens@) =~= start + spaced(pieces.take(i + 1)));
        }
    }
    assert(pieces.take(pieces.len() as int) =~= pieces);
}

/// The hashtags of the given tags as tokens, in their order.
fn hashtag_tokens(tags: &Vec<String>) -> (r: Vec<(String, Option<TokenMeta>)>)
    ensures
        token_views(r@) == texts(tags@).map_values(|t: Seq<char>| hashtag_piece(t)),
{
    let mut r: Vec<(String, Option<TokenMeta>)> = Vec::new();
    let mut i: usize = 0;
    while i < tags.len()
        invariant
            i <= tags.len(),
            token_views(r@) == texts(tags@).take(i as int).map_values(
                |t: Seq<char>| hashtag_piece(t),
            ),
        decreases tags.len() - i,
    {
        push_token(&mut r, hashtag_of(tags[i].as_str()), Some(TokenMeta::Hashtag));
        i += 1;
        assert(token_views(r@) =~= texts(tags@).take(i as int).map_values(
            |t: Seq<char>| hashtag_piece(t),
        ));
    }
    assert(texts(tags@).take(i as int) =~= texts(tags@));
    r
}

/// The mention of a user.
fn mention_of(login: &str) -> (s: String)
    ensures
        s@ == mention(login@),
{
    let mut s = String::new();
    push_char(&mut s, '@');
    s.append(login);
    assert(s@ =~= mention(login@));
    s
}

/// The address of a user's profile.
fn profile_of(login: &str) -> (s: String)
    ensures
        s@ == profile(login@),
{
    let mut s = "https://github.com/".to_owned();
    s.append(login);
    s
}

/// The given users as tokens, in their order.
fn user_tokens(logins: &Vec<String>, linked: bool) -> (r: Vec<(String, Option<TokenMeta>)>)
    ensures
        token_views(r@) == texts(logins@).map_values(|l: Seq<char>| user_piece(l, linked)),
{
    let mut r: Vec<(String, Option<TokenMeta>)> = Vec::new();
    let mut i: usize = 0;
    while i < logins.len()
        invariant
            i <= logins.len(),
            token_views(r@) == texts(logins@).take(i as int).map_values(
                |l: Seq<char>| user_piece(l, linked),
            ),
        decreases logins.len() - i,
    {
        let login = logins[i].as_str();
        let meta = if linked {
            Some(TokenMeta::TextLink(profile_of(login)))
        } else {
            None
        };
        push_token(&mut r, mention_of(login), meta);
        i += 1;
        assert(token_views(r@) =~= texts(logins@).take(i as int).map_values(
            |l: Seq<char>| user_piece(l, linked),
        ));
    }
    assert(texts(logins@).take(i as int) =~= texts(logins@));
    r
}

/// The address of the proposal's issue or pull request.
fn link_of(info: &FCPInfo) -> (s: String)
    ensures
        s@ == link(info@),
{
    let mut s = "https://github.com/".to_owned();
    s.append(info.repo.as_str());
    s.append("/");
    s.append(if info.is_pr { "pull" } else { "issues" });
    s.append("/");
    s.append(decimal_string(info.issue).as_str());
    s
}

/// The marker for a version of the layout.
fn marker_of(format: usize) -> (s: String)
    ensures
        s@ == marker(format as nat),
{
    let mut s = String::new();
    let mut i: usize = 0;
    while i < format
        invariant
            i <= format,
            s@ == marker(i as nat),
        decreases format - i,
    {
        push_char(&mut s, '\u{200B}');
        i += 1;
        assert(s@ =~= marker(i as nat));
    }
    s
}

/// The tags of one group in lexicographic order.
fn bucket_of(tags: &Vec<String>, kind: TagKind) -> (r: Vec<String>)
    ensures
        texts(r@) == bucket(texts(tags@), kind),
{
    sort_texts(tags_of_kind(tags, kind))
}

/// Appends the line of hashtags for the tags of one group.
fn push_bucket_line(
    tokens: &mut Vec<(String, Option<TokenMeta>)>,
    tags: &Vec<String>,
    kind: TagKind,
)
    ensures
        token_views(final(tokens)@) == token_views(old(tokens)@) + bucket_line(
            bucket(texts(tags@), kind),
        ),
{
    let sorted = bucket_of(tags, kind);
    let ghost start = token_views(tokens@);
    push_spaced(tokens, hashtag_tokens(&sorted));
    if sorted.len() > 0 {
        push_plain(tokens, "\n");
    }
    assert(token_views(tokens@) =~= start + bucket_line(texts(sorted@)));
}

/// The message about a proposal as a list of tokens, each a piece of text
/// and, where the piece is formatted, how.
pub fn format_msg_tokens(info: &FCPInfo) -> (tokens: Vec<(String, Option<TokenMeta>)>)
    ensures
        token_views(tokens@) == fragments(info@),
{
    let mut tokens: Vec<(String, Option<TokenMeta>)> = Vec::new();
    push_token(&mut tokens, info.title.clone(), Some(TokenMeta::Bold));
    push_plain(&mut tokens, "\n");
    push_token(&mut tokens, link_of(info), Some(TokenMeta::Url));
    push_plain(&mut tokens, "\n\n");
    assert(token_views(tokens@) =~= seq![
        styled(info@.title, Style::Bold),
        plain("\n"@),
        styled(link(info@), Style::Url),
        plain("\n\n"@),
    ]);
    push_bucket_line(&mut tokens, &info.tags, TagKind::Team);
    push_bucket_line(&mut tokens, &info.tags, TagKind::Category);
    push_bucket_line(&mut tokens, &info.tags, TagKind::Other);
    push_plain(&mut tokens, "--------\n\u{23F3} ");
    push_spaced(&mut tokens, user_tokens(&info.pending, true));
    push_plain(&mut tokens, "\n\u{2705} ");
    push_spaced(&mut tokens, user_tokens(&info.approved, false));
    push_plain(&mut tokens, "\n");
    push_token(&mut tokens, marker_of(MSG_FORMAT), None);
    assert(token_views(tokens@) =~= fragments(info@));
    tokens
}

/// The text of a list of pieces: their texts one after another.
pub open spec fn text_of(pieces: Seq<Fragment>) -> Seq<char>
    decreases pieces.len(),
{
    if pieces.len() == 0 {
        seq![]
    } else {
        text_of(pieces.drop_last()) + pieces.last().text
    }
}

/// The spans of a list of pieces: one for each formatted piece, in order,
/// which starts where the text before the piece ends and is as long as the
/// piece, both in 16-bit code units.
pub open spec fn spans_of(pieces: Seq<Fragment>) -> Seq<Span>
    decreases pieces.len(),
{
    if pieces.len() == 0 {
        seq![]
    } else {
        let before = pieces.drop_last();
        match pieces.last().style {
            Some(style) => spans_of(before).push(
                Span {
                    style,
                    offset: units(text_of(before)) as int,
                    length: units(pieces.last().text) as int,
                },
            ),
            None => spans_of(before),
        }
    }
}

/// The text of the message about a proposal.
pub open spec fn message_text(p: Proposal) -> Seq<char> {
    text_of(fragments(p))
}

/// The formatted stretches of the message about a proposal.
pub open spec fn message_spans(p: Proposal) -> Seq<Span> {
    spans_of(fragments(p))
}

/// The entities that stand for a list of spans.
pub open spec fn span_entities(spans: Seq<Span>) -> Seq<EntityView> {
    spans.map_values(|s: Span| span_entity(s))
}

/// Whether a text and a list of entities are the message about a proposal.
pub open spec fn is_message(p: Proposal, text: Seq<char>, entities: Seq<EntityView>) -> bool {
    text == message_text(p) && entities == span_entities(message_spans(p))
}

/// The text and the entities of a list of tokens, where the text's length
/// in code units can be told in an `i64`.
fn join_tokens(tokens: Vec<(String, Option<TokenMeta>)>) -> (r: Option<
    (String, Vec<RawMessageEntity>),
>)
    ensures
        match r {
            Some((text, entities)) => {
                &&& units(text_of(token_views(tokens@))) <= i64::MAX
                &&& text@ == text_of(token_views(tokens@))
                &&& entity_views(entities@) == span_entities(spans_of(token_views(tokens@)))
            },
            None => units(text_of(token_views(tokens@))) > i64::MAX,
        },
{
    let ghost pieces = token_views(tokens@);
    let mut utf16_cnt: i64 = 0;
    let mut string = String::new();
    let mut entities: Vec<RawMessageEntity> = Vec::new();
    proof {
        assert(pieces.take(0) =~= Seq::<Fragment>::empty());
        assert(entity_views(entities@) =~= span_entities(spans_of(pieces.take(0))));
    }
    for token in it: tokens
        invariant
            it.seq() == tokens@,
            pieces == token_views(tokens@),
            string@ == text_of(pieces.take(it.index() as int)),
            utf16_cnt == units(string@),
            entity_views(entities@) == span_entities(spans_of(pieces.take(it.index() as int))),
    {
        let ghost i = it.index() as int;
        let ghost before = string@;
        let ghost found = entity_views(entities@);
        proof {
            assert(pieces.take(i + 1).drop_last() =~= pieces.take(i));
            assert(pieces.take(i + 1).last() == token_view(token));
            lemma_text_of_grows(pieces, i + 1);
            crate::text::lemma_units_concat(before, token.0@);
        }
        string.append(token.0.as_str());
        let utf16_len = match unit_len(token.0.as_str()) {
            Some(n) => n,
            None => {
                return None;
            },
        };
        if utf16_cnt > i64::MAX - utf16_len {
            return None;
        }
        match token.1 {
            Some(meta) => {
                let e = meta.entity(utf16_cnt, utf16_len);
                entities.push(e);
                assert(entity_views(entities@) =~= found.push(entity_view(e)));
            },
            None => {},
        }
        utf16_cnt = utf16_cnt + utf16_len;
        assert(entity_views(entities@) =~= span_entities(spans_of(pieces.take(i + 1))));
    }
    assert(pieces.take(pieces.len() as int) =~= pieces);
    Some((string, entities))
}

/// The text of the first `n` pieces of a list is the start of the text of
/// the whole list, which is therefore at least as long.
proof fn lemma_text_of_grows(pieces: Seq<Fragment>, n: int)
    requires
        0 <= n <= pieces.len(),
    ensures
        units(text_of(pieces.take(n))) <= units(text_of(pieces)),
    decreases pieces.len() - n,
{
    if n == pieces.len() {
        assert(pieces.take(n) =~= pieces);
    } else {
        assert(pieces.take(n + 1).drop_last() =~= pieces.take(n));
        crate::text::lemma_units_concat(text_of(pieces.take(n)), pieces[n].text);
        lemma_text_of_grows(pieces, n + 1);
    }
}

/// The message about a proposal, where its length in code units can be told
/// in an `i64`: its text, and an entity for each formatted stretch.
pub fn try_format_msg(info: &FCPInfo) -> (r: Option<(String, Vec<RawMessageEntity>)>)
    ensures
        match r {
            Some((text, entities)) => {
                &&& units(message_text(info@)) <= i64::MAX
                &&& is_message(info@, text@, entity_views(entities@))
            },
            None => units(message_text(info@)) > i64::MAX,
        },
{
    join_tokens(format_msg_tokens(info))
}

/// The message about a proposal: its text, and an entity for each formatted
/// stretch.
pub fn format_msg(info: &FCPInfo) -> (r: (String, Vec<RawMessageEntity>))
    requires
        units(message_text(info@)) <= i64::MAX,
    ensures
        is_message(info@, r.0@, entity_views(r.1@)),
{
    match try_format_msg(info) {
        Some(r) => r,
        None => unreached(),
    }
}

/// Filtering keeps each element that meets the condition as often as it
/// occurs, and none of the others.
proof fn lemma_filter_count<A>(s: Seq<A>, pred: spec_fn(A) -> bool, x: A)
    ensures
        s.filter(pred).to_multiset().count(x) == if pred(x) {
            s.to_multiset().count(x)
        } else {
            0
        },
    decreases s.len(),
{
    broadcast use group_to_multiset_ensures;

    reveal(Seq::filter);
    if s.len() == 0 {
        assert(s.to_multiset().count(x) == 0) by {
            if s.to_multiset().count(x) > 0 {
                assert(s.contains(x));
            }
        }
    } else {
        lemma_filter_count(s.drop_last(), pred, x);
        assert(s =~= s.drop_last().push(s.last()));
        to_multiset_build(s.drop_last(), s.last());
        if pred(s.last()) {
            to_multiset_build(s.drop_last().filter(pred), s.last());
        }
    }
}

/// Each tag of a proposal stands in the group of its kind, as often as the
/// proposal has it, and in no other group; each group is in lexicographic
/// order; and a tag of fewer than two characters is of the kind `Other`.
pub proof fn lemma_buckets_partition(tags: Seq<Seq<char>>)
    ensures
        forall|kind: TagKind, tag: Seq<char>| #[trigger]
            bucket(tags, kind).to_multiset().count(tag) == if tag_kind(tag) == kind {
                tags.to_multiset().count(tag)
            } else {
                0
            },
        forall|kind: TagKind| sorted_by(#[trigger] bucket(tags, kind), lex_order()),
        forall|tag: Seq<char>| tag.len() < 2 ==> #[trigger] tag_kind(tag) == TagKind::Other,
{
    crate::text::lemma_lex_total_ordering();
    assert forall|kind: TagKind| sorted_by(#[trigger] bucket(tags, kind), lex_order()) by {
        tags.filter(|t: Seq<char>| tag_kind(t) == kind).lemma_sort_by_ensures(lex_order());
    }
    assert forall|kind: TagKind, tag: Seq<char>| #[trigger]
        bucket(tags, kind).to_multiset().count(tag) == if tag_kind(tag) == kind {
            tags.to_multiset().count(tag)
        } else {
            0
        } by {
        tags.filter(|t: Seq<char>| tag_kind(t) == kind).lemma_sort_by_ensures(lex_order());
        lemma_filter_count(tags, |t: Seq<char>| tag_kind(t) == kind, tag);
    }
}

/// The spans of a list of pieces lie one after another within the text:
/// none starts before the one before it ends, and each ends within the text.
pub proof fn lemma_spans_in_order(pieces: Seq<Fragment>)
    ensures
        forall|i: int|
            0 <= i < spans_of(pieces).len() ==> {
                &&& 0 <= (#[trigger] spans_of(pieces)[i]).offset
                &&& 0 <= spans_of(pieces)[i].length
                &&& spans_of(pieces)[i].offset + spans_of(pieces)[i].length <= units(
                    text_of(pieces),
                )
            },
        forall|i: int, j: int|
            0 <= i < j < spans_of(pieces).len() ==> (#[trigger] spans_of(pieces)[i]).offset
                + spans_of(pieces)[i].length <= (#[trigger] spans_of(pieces)[j]).offset,
    decreases pieces.len(),
{
    if pieces.len() > 0 {
        lemma_spans_in_order(pieces.drop_last());
        crate::text::lemma_units_concat(text_of(pieces.drop_last()), pieces.last().text);
    }
}

/// The entities of a message are sorted by offset, do not overlap, and lie
/// within the text, all measured in 16-bit code units.
pub proof fn lemma_entities_valid(p: Proposal, text: Seq<char>, entities: Seq<EntityView>)
    requires
        is_message(p, text, entities),
    ensures
        forall|i: int, j: int|
            0 <= i < j < entities.len() ==> (#[trigger] entities[i]).offset <= (
            #[trigger] entities[j]).offset,
        forall|i: int, j: int|
            0 <= i < j < entities.len() ==> (#[trigger] entities[i]).offset + entities[i].length
                <= (#[trigger] entities[j]).offset,
        forall|i: int|
            0 <= i < entities.len() ==> {
                &&& 0 <= (#[trigger] entities[i]).offset
                &&& 0 <= entities[i].length
                &&& entities[i].offset + entities[i].length <= units(text)
            },
{
    lemma_spans_in_order(fragments(p));
    let spans = message_spans(p);
    assert forall|i: int| 0 <= i < entities.len() implies (#[trigger] entities[i]).offset
        == spans[i].offset && entities[i].length == spans[i].length by {}
}

/// Two messages about summaries that hold the same values are the same
/// message: the same text and the same entities.
pub proof fn lemma_message_determined(
    a: FCPInfo,
    b: FCPInfo,
    first: (String, Vec<RawMessageEntity>),
    second: (String, Vec<RawMessageEntity>),
)
    requires
        a@ == b@,
        is_message(a@, first.0@, entity_views(first.1@)),
        is_message(b@, second.0@, entity_views(second.1@)),
    ensures
        first.0@ == second.0@,
        entity_views(first.1@) == entity_views(second.1@),
{
}

} // verus!
