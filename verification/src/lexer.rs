//! The modes of the (X)HTML lexer and how it moves between them: markup,
//! inside a tag, inside an attribute value, inside a script or a style.
//! Each mode has its own tokens; a token may enter a mode (pushed on a
//! stack) or leave it (popped, back to the mode below).
use vstd::prelude::*;
use vstd::string::StrSliceExecFns;

verus! {

/// A position in the source text.
pub type Location = usize;

/// A token with the positions where it starts and ends, or an error.
pub type Span<T, E> = Result<(Location, T, Location), E>;

/// What the lexer cannot make a token of.
#[derive(Debug)]
pub enum LexicalError {
    UnexpectedConversionToken,
    NoToken,
}

/// The modes of the lexer.
#[derive(Clone, Copy, PartialEq, Eq, Debug, Structural)]
pub enum ModesType {
    Html,
    Tag,
    Script,
    Style,
    Attribute,
    NoMode,
}

/// The tokens of markup.
#[derive(Clone, Copy, PartialEq, Eq, Debug)]
pub enum Html<'source> {
    HtmlComment(&'source str),
    XmlDeclarationOrPi(&'source str),
    CdataDeclaration(&'source str),
    HtmlConditionalComment(&'source str),
    DtdDeclaration(&'source str),
    ScripletDeclaration(&'source str),
    SeaWS,
    ScriptOpen(&'source str),
    StyleOpen(&'source str),
    TagOpen(&'source str),
    HtmlText(&'source str),
    Error,
}

/// The tokens inside a tag.
#[derive(Clone, Copy, PartialEq, Eq, Debug)]
pub enum Tag<'source> {
    TagClose(&'source str),
    TagSlashClose(&'source str),
    TagSlash(&'source str),
    TagEquals(&'source str),
    TagName(&'source str),
    TagWhiteSpace,
    Error,
}

/// The tokens of a script.
#[derive(Clone, Copy, PartialEq, Eq, Debug)]
pub enum Script<'source> {
    ScriptBody(&'source str),
    ScriptShortBody(&'source str),
    Error,
}

/// The tokens of a style.
#[derive(Clone, Copy, PartialEq, Eq, Debug)]
pub enum Style<'source> {
    StyleBody(&'source str),
    StyleShortBody(&'source str),
    Error,
}

/// The tokens of an attribute value.
#[derive(Clone, Copy, PartialEq, Eq, Debug)]
pub enum Attribute<'source> {
    Attribute(&'source str),
    Error,
}

/// The tokens the parser reads, whatever the mode.
#[derive(Clone, Copy, PartialEq, Eq, Debug)]
pub enum Tokens<'source> {
    HtmlComment(&'source str),
    XmlDeclarationOrPi(&'source str),
    CdataDeclaration(&'source str),
    HtmlConditionalComment(&'source str),
    DtdDeclaration(&'source str),
    ScripletDeclaration(&'source str),
    SeaWS(&'source str),
    ScriptOpen(&'source str),
    StyleOpen(&'source str),
    TagOpen(&'source str),
    HtmlText(&'source str),
    TagClose(&'source str),
    TagSlashClose(&'source str),
    TagSlash(&'source str),
    TagEquals(&'source str),
    TagName(&'source str),
    TagWhiteSpace,
    ScriptBody(&'source str),
    ScriptShortBody(&'source str),
    StyleBody(&'source str),
    StyleShortBody(&'source str),
    AttributeValue(&'source str),
    Error,
}

/// A token read in some mode.
#[derive(Clone, Copy, PartialEq, Eq, Debug)]
pub enum ModeToken<'source> {
    Html(Html<'source>),
    Tag(Tag<'source>),
    Style(Style<'source>),
    Script(Script<'source>),
    Attribute(Attribute<'source>),
}

/// The mode a token is read in.
pub open spec fn token_mode(t: ModeToken) -> ModesType {
    match t {
        ModeToken::Html(_) => ModesType::Html,
        ModeToken::Tag(_) => ModesType::Tag,
        ModeToken::Style(_) => ModesType::Style,
        ModeToken::Script(_) => ModesType::Script,
        ModeToken::Attribute(_) => ModesType::Attribute,
    }
}

/// The parser's token for a markup token; white space and errors are
/// errors.
pub open spec fn html_token_spec<'s>(h: Html<'s>, start: usize, end: usize) -> Span<Tokens<'s>, LexicalError> {
    match h {
        Html::HtmlComment(t) => Ok((start, Tokens::HtmlConditionalComment(t), end)),
        Html::XmlDeclarationOrPi(t) => Ok((start, Tokens::XmlDeclarationOrPi(t), end)),
        Html::CdataDeclaration(t) => Ok((start, Tokens::CdataDeclaration(t), end)),
        Html::HtmlConditionalComment(t) => Ok((start, Tokens::HtmlConditionalComment(t), end)),
        Html::DtdDeclaration(t) => Ok((start, Tokens::DtdDeclaration(t), end)),
        Html::ScripletDeclaration(t) => Ok((start, Tokens::ScripletDeclaration(t), end)),
        Html::SeaWS => Err(LexicalError::UnexpectedConversionToken),
        Html::ScriptOpen(t) => Ok((start, Tokens::ScriptOpen(t), end)),
        Html::StyleOpen(t) => Ok((start, Tokens::StyleOpen(t), end)),
        Html::TagOpen(t) => Ok((start, Tokens::TagOpen(t), end)),
        Html::HtmlText(t) => Ok((start, Tokens::HtmlText(t), end)),
        Html::Error => Err(LexicalError::UnexpectedConversionToken),
    }
}

/// The parser's token for a markup token.
pub fn html_to_token<'s>(h: Html<'s>, start: Location, end: Location) -> (r: Span<Tokens<'s>, LexicalError>)
    ensures
        r == html_token_spec(h, start, end),
{
    match h {
        Html::HtmlComment(t) => Ok((start, Tokens::HtmlConditionalComment(t), end)),
        Html::XmlDeclarationOrPi(t) => Ok((start, Tokens::XmlDeclarationOrPi(t), end)),
        Html::CdataDeclaration(t) => Ok((start, Tokens::CdataDeclaration(t), end)),
        Html::HtmlConditionalComment(t) => Ok((start, Tokens::HtmlConditionalComment(t), end)),
        Html::DtdDeclaration(t) => Ok((start, Tokens::DtdDeclaration(t), end)),
        Html::ScripletDeclaration(t) => Ok((start, Tokens::ScripletDeclaration(t), end)),
        Html::SeaWS => Err(LexicalError::UnexpectedConversionToken),
        Html::ScriptOpen(t) => Ok((start, Tokens::ScriptOpen(t), end)),
        Html::StyleOpen(t) => Ok((start, Tokens::StyleOpen(t), end)),
        Html::TagOpen(t) => Ok((start, Tokens::TagOpen(t), end)),
        Html::HtmlText(t) => Ok((start, Tokens::HtmlText(t), end)),
        Html::Error => Err(LexicalError::UnexpectedConversionToken),
    }
}

/// The parser's token for a token inside a tag.
pub open spec fn tag_token_spec<'s>(t: Tag<'s>, start: usize, end: usize) -> Span<Tokens<'s>, LexicalError> {
    match t {
        Tag::TagClose(s) => Ok((start, Tokens::TagClose(s), end)),
        Tag::TagSlashClose(s) => Ok((start, Tokens::TagSlashClose(s), end)),
        Tag::TagSlash(s) => Ok((start, Tokens::TagSlash(s), end)),
        Tag::TagEquals(s) => Ok((start, Tokens::TagEquals(s), end)),
        Tag::TagName(s) => Ok((start, Tokens::TagName(s), end)),
        Tag::TagWhiteSpace => Ok((start, Tokens::TagWhiteSpace, end)),
        Tag::Error => Err(LexicalError::UnexpectedConversionToken),
    }
}

/// The parser's token for a token inside a tag.
pub fn tag_to_token<'s>(t: Tag<'s>, start: Location, end: Location) -> (r: Span<Tokens<'s>, LexicalError>)
    ensures
        r == tag_token_spec(t, start, end),
{
    match t {
        Tag::TagClose(s) => Ok((start, Tokens::TagClose(s), end)),
        Tag::TagSlashClose(s) => Ok((start, Tokens::TagSlashClose(s), end)),
        Tag::TagSlash(s) => Ok((start, Tokens::TagSlash(s), end)),
        Tag::TagEquals(s) => Ok((start, Tokens::TagEquals(s), end)),
        Tag::TagName(s) => Ok((start, Tokens::TagName(s), end)),
        Tag::TagWhiteSpace => Ok((start, Tokens::TagWhiteSpace, end)),
        Tag::Error => Err(LexicalError::UnexpectedConversionToken),
    }
}

/// The parser's token for a token of a script.
pub open spec fn script_token_spec<'s>(s: Script<'s>, start: usize, end: usize) -> Span<Tokens<'s>, LexicalError> {
    match s {
        Script::ScriptBody(t) => Ok((start, Tokens::ScriptBody(t), end)),
        Script::ScriptShortBody(t) => Ok((start, Tokens::ScriptShortBody(t), end)),
        Script::Error => Err(LexicalError::UnexpectedConversionToken),
    }
}

/// The parser's token for a token of a script.
pub fn script_to_token<'s>(s: Script<'s>, start: Location, end: Location) -> (r: Span<Tokens<'s>, LexicalError>)
    ensures
        r == script_token_spec(s, start, end),
{
    match s {
        Script::ScriptBody(t) => Ok((start, Tokens::ScriptBody(t), end)),
        Script::ScriptShortBody(t) => Ok((start, Tokens::ScriptShortBody(t), end)),
        Script::Error => Err(LexicalError::UnexpectedConversionToken),
    }
}

/// The parser's token for a token of a style.
pub open spec fn style_token_spec<'s>(s: Style<'s>, start: usize, end: usize) -> Span<Tokens<'s>, LexicalError> {
    match s {
        Style::StyleBody(t) => Ok((start, Tokens::StyleBody(t), end)),
        Style::StyleShortBody(t) => Ok((start, Tokens::StyleShortBody(t), end)),
        Style::Error => Err(LexicalError::UnexpectedConversionToken),
    }
}

/// The parser's token for a token of a style.
pub fn style_to_token<'s>(s: Style<'s>, start: Location, end: Location) -> (r: Span<Tokens<'s>, LexicalError>)
    ensures
        r == style_token_spec(s, start, end),
{
    match s {
        Style::StyleBody(t) => Ok((start, Tokens::StyleBody(t), end)),
        Style::StyleShortBody(t) => Ok((start, Tokens::StyleShortBody(t), end)),
        Style::Error => Err(LexicalError::UnexpectedConversionToken),
    }
}

/// The index of the first character of `s` from `i` on that is not `"`.
pub open spec fn skip_quotes(s: Seq<char>, i: int) -> int
    decreases s.len() - i,
{
    if i < s.len() && s[i] == '"' {
        skip_quotes(s, i + 1)
    } else {
        i
    }
}

/// The index after the last character of `s` before `j` (and not before
/// `lo`) that is not `"`.
pub open spec fn drop_quotes(s: Seq<char>, lo: int, j: int) -> int
    decreases j - lo,
{
    if j > lo && s[j - 1] == '"' {
        drop_quotes(s, lo, j - 1)
    } else {
        j
    }
}

/// `s` without its leading and its trailing `"` characters.
pub open spec fn trim_quotes(s: Seq<char>) -> Seq<char> {
    let i = skip_quotes(s, 0);
    s.subrange(i, drop_quotes(s, i, s.len() as int))
}

/// `s` without its leading and its trailing `"` characters.
pub fn trim_quotes_str(s: &str) -> (r: &str)
    ensures
        r@ == trim_quotes(s@),
{
    let n = s.unicode_len();
    let mut i: usize = 0;
    while i < n && s.get_char(i) == '"'
        invariant
            0 <= i <= n,
            n == s@.len(),
            skip_quotes(s@, 0) == skip_quotes(s@, i as int),
        decreases n - i,
    {
        i = i + 1;
    }
    let mut j: usize = n;
    while j > i && s.get_char(j - 1) == '"'
        invariant
            i <= j <= n,
            n == s@.len(),
            skip_quotes(s@, 0) == i,
            drop_quotes(s@, i as int, n as int) == drop_quotes(s@, i as int, j as int),
        decreases j,
    {
        j = j - 1;
    }
    s.substring_char(i, j)
}

/// The parser's token for an attribute value: the value without its
/// surrounding `"` characters.
pub open spec fn att_token_spec<'s>(a: Attribute<'s>, start: usize, end: usize) -> Option<(usize, Seq<char>, usize)> {
    match a {
        Attribute::Attribute(t) => Some((start, trim_quotes(t@), end)),
        Attribute::Error => None,
    }
}

/// The parser's token for an attribute value.
pub fn att_to_token<'s>(a: Attribute<'s>, start: Location, end: Location) -> (r: Span<Tokens<'s>, LexicalError>)
    ensures
        match att_token_spec(a, start, end) {
            Some((s, v, e)) => r matches Ok((s2, Tokens::AttributeValue(t), e2)) && s2 == s && e2 == e
                && t@ == v,
            None => r matches Err(LexicalError::UnexpectedConversionToken),
        },
{
    match a {
        Attribute::Attribute(t) => Ok((start, Tokens::AttributeValue(trim_quotes_str(t)), end)),
        Attribute::Error => Err(LexicalError::UnexpectedConversionToken),
    }
}

/// Whether a token leaves its mode.
pub open spec fn leaves_mode(t: ModeToken) -> bool {
    match t {
        ModeToken::Tag(Tag::TagClose(_)) => true,
        ModeToken::Tag(Tag::TagSlashClose(_)) => true,
        ModeToken::Style(Style::StyleBody(_)) => true,
        ModeToken::Style(Style::StyleShortBody(_)) => true,
        ModeToken::Script(Script::ScriptBody(_)) => true,
        ModeToken::Script(Script::ScriptShortBody(_)) => true,
        ModeToken::Attribute(Attribute::Attribute(_)) => true,
        _ => false,
    }
}

/// The mode a token enters, if any.
pub open spec fn enters_mode(t: ModeToken) -> Option<ModesType> {
    match t {
        ModeToken::Html(Html::TagOpen(_)) => Some(ModesType::Tag),
        ModeToken::Html(Html::ScriptOpen(_)) => Some(ModesType::Script),
        ModeToken::Html(Html::StyleOpen(_)) => Some(ModesType::Style),
        ModeToken::Tag(Tag::TagEquals(_)) => Some(ModesType::Attribute),
        _ => None,
    }
}

/// The mode and the stack of modes after the token `t`: a token that enters
/// a mode pushes it; one that leaves its mode pops it, back to the mode
/// below.
pub open spec fn transition(mode: ModesType, stack: Seq<ModesType>, t: Option<ModeToken>) -> (
    ModesType,
    Seq<ModesType>,
) {
    match t {
        None => (mode, stack),
        Some(t) => match enters_mode(t) {
            Some(m) => (m, stack.push(m)),
            None => if leaves_mode(t) {
                (stack.drop_last().last(), stack.drop_last())
            } else {
                (mode, stack)
            },
        },
    }
}

/// The current mode is the top of the stack, and stays so: a token that
/// enters a mode pushes it, and one that leaves a mode above the bottom of
/// the stack pops back to the mode below.
pub proof fn lemma_transition_keeps_top(mode: ModesType, stack: Seq<ModesType>, t: Option<ModeToken>)
    requires
        stack.len() >= 1,
        mode == stack.last(),
        t matches Some(x) ==> (leaves_mode(x) ==> stack.len() >= 2),
    ensures
        transition(mode, stack, t).1.len() >= 1,
        transition(mode, stack, t).0 == transition(mode, stack, t).1.last(),
{
}

/// Entering a mode and then leaving it brings the lexer back to the mode
/// and the stack it had before.
pub proof fn lemma_enter_then_leave(
    mode: ModesType,
    stack: Seq<ModesType>,
    enter: ModeToken,
    leave: ModeToken,
)
    requires
        stack.len() >= 1,
        mode == stack.last(),
        enters_mode(enter) is Some,
        leaves_mode(leave),
    ensures
        ({
            let (m1, s1) = transition(mode, stack, Some(enter));
            transition(m1, s1, Some(leave))
        }) == (mode, stack),
{
    let (m1, s1) = transition(mode, stack, Some(enter));
    assert(s1.drop_last() =~= stack);
}

/// The parser's token for a token read in some mode.
pub open spec fn converted<'s>(t: ModeToken<'s>, start: usize, end: usize) -> Option<Span<Tokens<'s>, LexicalError>> {
    match t {
        ModeToken::Html(h) => Some(html_token_spec(h, start, end)),
        ModeToken::Tag(g) => Some(tag_token_spec(g, start, end)),
        ModeToken::Style(s) => Some(style_token_spec(s, start, end)),
        ModeToken::Script(s) => Some(script_token_spec(s, start, end)),
        ModeToken::Attribute(_) => None,
    }
}

/// The lexer's modes: the current one and the stack of those entered.
pub struct ModeAdapter {
    pub current_mode: ModesType,
    pub lexers_stack: Vec<ModesType>,
}

impl ModeAdapter {
    /// The adapter before any mode: none current, a stack holding none.
    pub fn new() -> (r: Self)
        ensures
            r.current_mode == ModesType::NoMode,
            r.lexers_stack@ == seq![ModesType::NoMode],
    {
        ModeAdapter { current_mode: ModesType::NoMode, lexers_stack: vec![ModesType::NoMode] }
    }

    /// The adapter before any mode (as `new`).
    pub fn default() -> (r: Self)
        ensures
            r.current_mode == ModesType::NoMode,
            r.lexers_stack@ == seq![ModesType::NoMode],
    {
        Self::new()
    }

    /// Starts in `mode`.
    pub fn initialize(&mut self, mode: ModesType)
        requires
            mode != ModesType::NoMode,
        ensures
            final(self).current_mode == mode,
            final(self).lexers_stack@ == old(self).lexers_stack@.push(mode),
    {
        self.current_mode = mode;
        self.lexers_stack.push(mode);
    }

    fn pop_mode(&mut self)
        requires
            old(self).lexers_stack@.len() >= 2,
            old(self).lexers_stack@[old(self).lexers_stack@.len() - 2] != ModesType::NoMode,
        ensures
            final(self).lexers_stack@ == old(self).lexers_stack@.drop_last(),
            final(self).current_mode == old(self).lexers_stack@.drop_last().last(),
    {
        self.lexers_stack.pop();
        let mode = self.lexers_stack[self.lexers_stack.len() - 1];
        self.current_mode = mode;
    }

    /// Takes the token `result` that the lexer of the current mode read
    /// between `start` and `end` (none at the end of the text): moves
    /// between modes as `transition` says and gives the parser's token.
    pub fn next<'s>(&mut self, result: Option<ModeToken<'s>>, start: Location, end: Location) -> (r:
        Option<Span<Tokens<'s>, LexicalError>>)
        requires
            old(self).current_mode != ModesType::NoMode,
            result matches Some(t) ==> token_mode(t) == old(self).current_mode,
            result matches Some(t) ==> (leaves_mode(t) ==> old(self).lexers_stack@.len() >= 2
                && old(self).lexers_stack@[old(self).lexers_stack@.len() - 2] != ModesType::NoMode),
        ensures
            (final(self).current_mode, final(self).lexers_stack@) == transition(
                old(self).current_mode,
                old(self).lexers_stack@,
                result,
            ),
            match result {
                None => r is None,
                Some(ModeToken::Attribute(a)) => match att_token_spec(a, start, end) {
                    Some((s, v, e)) => r matches Some(Ok((s2, Tokens::AttributeValue(t), e2))) && s2
                        == s && e2 == e && t@ == v,
                    None => r matches Some(Err(LexicalError::UnexpectedConversionToken)),
                },
                Some(t) => r == converted(t, start, end),
            },
    {
        match result {
            None => None,
            Some(ModeToken::Html(h)) => {
                match h {
                    Html::TagOpen(_) => {
                        self.current_mode = ModesType::Tag;
                        self.lexers_stack.push(ModesType::Tag);
                    },
                    Html::ScriptOpen(_) => {
                        self.current_mode = ModesType::Script;
                        self.lexers_stack.push(ModesType::Script);
                    },
                    Html::StyleOpen(_) => {
                        self.current_mode = ModesType::Style;
                        self.lexers_stack.push(ModesType::Style);
                    },
                    _ => {},
                }
                Some(html_to_token(h, start, end))
            },
            Some(ModeToken::Tag(t)) => {
                match t {
                    Tag::TagClose(_) => {
                        self.pop_mode();
                    },
                    Tag::TagSlashClose(_) => {
                        self.pop_mode();
                    },
                    Tag::TagEquals(_) => {
                        self.current_mode = ModesType::Attribute;
                        self.lexers_stack.push(ModesType::Attribute);
                    },
                    _ => {},
                }
                Some(tag_to_token(t, start, end))
            },
            Some(ModeToken::Style(s)) => {
                match s {
                    Style::StyleBody(_) => {
                        self.pop_mode();
                    },
                    Style::StyleShortBody(_) => {
                        self.pop_mode();
                    },
                    _ => {},
                }
                Some(style_to_token(s, start, end))
            },
            Some(ModeToken::Script(s)) => {
                match s {
                    Script::ScriptBody(_) => {
                        self.pop_mode();
                    },
                    Script::ScriptShortBody(_) => {
                        self.pop_mode();
                    },
                    _ => {},
                }
                Some(script_to_token(s, start, end))
            },
            Some(ModeToken::Attribute(a)) => {
                match a {
                    Attribute::Attribute(_) => {
                        self.pop_mode();
                    },
                    _ => {},
                }
                Some(att_to_token(a, start, end))
            },
        }
    }
}

/// The text a markup token carries, if any.
pub open spec fn html_payload<'s>(h: Html<'s>) -> Option<&'s str> {
    match h {
        Html::HtmlComment(t) => Some(t),
        Html::XmlDeclarationOrPi(t) => Some(t),
        Html::CdataDeclaration(t) => Some(t),
        Html::HtmlConditionalComment(t) => Some(t),
        Html::DtdDeclaration(t) => Some(t),
        Html::ScripletDeclaration(t) => Some(t),
        Html::SeaWS => None,
        Html::ScriptOpen(t) => Some(t),
        Html::StyleOpen(t) => Some(t),
        Html::TagOpen(t) => Some(t),
        Html::HtmlText(t) => Some(t),
        Html::Error => None,
    }
}

/// The text a parser token carries, if any.
pub open spec fn token_payload<'s>(t: Tokens<'s>) -> Option<&'s str> {
    match t {
        Tokens::HtmlComment(x) => Some(x),
        Tokens::XmlDeclarationOrPi(x) => Some(x),
        Tokens::CdataDeclaration(x) => Some(x),
        Tokens::HtmlConditionalComment(x) => Some(x),
        Tokens::DtdDeclaration(x) => Some(x),
        Tokens::ScripletDeclaration(x) => Some(x),
        Tokens::SeaWS(x) => Some(x),
        Tokens::ScriptOpen(x) => Some(x),
        Tokens::StyleOpen(x) => Some(x),
        Tokens::TagOpen(x) => Some(x),
        Tokens::HtmlText(x) => Some(x),
        Tokens::TagClose(x) => Some(x),
        Tokens::TagSlashClose(x) => Some(x),
        Tokens::TagSlash(x) => Some(x),
        Tokens::TagEquals(x) => Some(x),
        Tokens::TagName(x) => Some(x),
        Tokens::TagWhiteSpace => None,
        Tokens::ScriptBody(x) => Some(x),
        Tokens::ScriptShortBody(x) => Some(x),
        Tokens::StyleBody(x) => Some(x),
        Tokens::StyleShortBody(x) => Some(x),
        Tokens::AttributeValue(x) => Some(x),
        Tokens::Error => None,
    }
}

/// Converting a markup token read in the markup mode (as the mode adapter
/// does): only white space and lexing errors are refused; every other token
/// becomes a parser token with the same span and the same text, and text
/// content stays text content.
pub proof fn lemma_html_conversion<'s>(h: Html<'s>, start: usize, end: usize)
    ensures
        converted(ModeToken::Html(h), start, end) == Some(html_token_spec(h, start, end)),
        html_token_spec(h, start, end) is Err <==> (h is SeaWS || h is Error),
        html_token_spec(h, start, end) matches Ok((s, t, e)) ==> s == start && e == end && token_payload(t)
            == html_payload(h),
        (h is HtmlText) <==> (html_token_spec(h, start, end) matches Ok((_, t, _)) && t is HtmlText),
{
}

} // verus!
