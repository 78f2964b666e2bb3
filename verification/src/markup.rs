//! Styled text: a line with tags in square brackets is cut into tokens, and
//! the tokens are turned into runs of text with a colour, a weight and a
//! slant.
//!
//! The tags are `[b]` and `[/b]`, `[i]` and `[/i]`, `[color=#rrggbb]` and
//! `[/color]`. Anything else in square brackets is text.

use vstd::prelude::*;
use vstd::string::StrSliceExecFns;

verus! {

/// What a token is.
#[derive(Clone, Copy, Debug, PartialEq, Eq, Structural)]
pub enum TokenType {
    Text,
    ItalicOpen,
    ItalicClose,
    BoldOpen,
    BoldClose,
    ColorOpen,
    ColorClose,
}

/// A piece of the line: a tag, or the text between two tags.
#[derive(Clone, Copy, Debug, PartialEq, Eq)]
pub struct Token<'a> {
    pub text: &'a str,
    pub token_type: TokenType,
}

/// Upright or slanted.
#[derive(Clone, Copy, Debug, PartialEq, Eq, Structural)]
pub enum FontStyle {
    Normal,
    Italic,
}

/// Regular or bold.
#[derive(Clone, Copy, Debug, PartialEq, Eq, Structural)]
pub enum FontWeight {
    Normal,
    Bold,
}

/// How a run of text is set.
#[derive(Clone, Copy, Debug, PartialEq, Eq)]
pub struct Style<'a> {
    pub color: &'a str,
    pub font_style: FontStyle,
    pub font_weight: FontWeight,
}

/// A run of text with its style.
#[derive(Clone, Copy, Debug, PartialEq, Eq)]
pub struct Node<'a> {
    pub style: Style<'a>,
    pub text: &'a str,
}

/// What a `Token` holds.
pub struct TokenModel {
    pub text: Seq<char>,
    pub token_type: TokenType,
}

/// What a `Style` holds.
pub struct StyleModel {
    pub color: Seq<char>,
    pub font_style: FontStyle,
    pub font_weight: FontWeight,
}

/// What a `Node` holds.
pub struct NodeModel {
    pub style: StyleModel,
    pub text: Seq<char>,
}

impl<'a> View for Token<'a> {
    type V = TokenModel;

    open spec fn view(&self) -> TokenModel {
        TokenModel { text: self.text@, token_type: self.token_type }
    }
}

impl<'a> View for Style<'a> {
    type V = StyleModel;

    open spec fn view(&self) -> StyleModel {
        StyleModel {
            color: self.color@,
            font_style: self.font_style,
            font_weight: self.font_weight,
        }
    }
}

impl<'a> View for Node<'a> {
    type V = NodeModel;

    open spec fn view(&self) -> NodeModel {
        NodeModel { style: self.style@, text: self.text@ }
    }
}

/// The tokens of `tokens`, each by what it holds.
pub open spec fn token_models(tokens: Seq<Token>) -> Seq<TokenModel> {
    Seq::new(tokens.len(), |i: int| tokens[i]@)
}

/// The nodes of `nodes`, each by what it holds.
pub open spec fn node_models(nodes: Seq<Node>) -> Seq<NodeModel> {
    Seq::new(nodes.len(), |i: int| nodes[i]@)
}

/// `c` is one of the digits `0` to `9`, `a` to `f` and `A` to `F`.
pub open spec fn is_hex_digit(c: char) -> bool {
    ('0' <= c && c <= '9') || ('a' <= c && c <= 'f') || ('A' <= c && c <= 'F')
}

/// The length of a tag that opens a colour.
pub const COLOR_TAG_LEN: usize = 15;

/// Where the colour starts in such a tag, with its `#`.
pub const COLOR_AT: usize = 7;

/// Where the six digits of the colour start.
pub const COLOR_DIGITS_AT: usize = 8;

/// Where the colour ends.
pub const COLOR_END: usize = 14;

/// `tag` opens a colour: it is `[color=#`, six hexadecimal digits and `]`.
pub open spec fn is_color_tag(tag: Seq<char>) -> bool {
    &&& tag.len() == COLOR_TAG_LEN
    &&& tag.subrange(0, COLOR_DIGITS_AT as int) == "[color=#"@
    &&& tag[COLOR_END as int] == ']'
    &&& forall|k: int| COLOR_DIGITS_AT <= k < COLOR_END ==> is_hex_digit(#[trigger] tag[k])
}

/// What the bracketed piece `tag` is: one of the known tags, or text.
pub open spec fn tag_type(tag: Seq<char>) -> TokenType {
    if tag == "[b]"@ {
        TokenType::BoldOpen
    } else if tag == "[/b]"@ {
        TokenType::BoldClose
    } else if tag == "[i]"@ {
        TokenType::ItalicOpen
    } else if tag == "[/i]"@ {
        TokenType::ItalicClose
    } else if tag == "[/color]"@ {
        TokenType::ColorClose
    } else if is_color_tag(tag) {
        TokenType::ColorOpen
    } else {
        TokenType::Text
    }
}

/// The text from `start` to `end` as a token of text.
pub open spec fn text_token(text: Seq<char>, start: int, end: int) -> TokenModel {
    TokenModel { text: text.subrange(start, end), token_type: TokenType::Text }
}

/// The bracketed piece from `start` to `end` as a token.
pub open spec fn tag_token(text: Seq<char>, start: int, end: int) -> TokenModel {
    TokenModel { text: text.subrange(start, end), token_type: tag_type(text.subrange(start, end)) }
}

/// The tokens of `text` from the character `i` on, where the piece at hand
/// started at `start` and is, if `in_tag`, behind an open bracket.
///
/// A `]` behind an open bracket ends a tag. A `[` ends the piece at hand,
/// which is text even if it started with a bracket, and opens the next. What
/// is left at the end of the line is text.
pub open spec fn lex_from(text: Seq<char>, i: int, start: int, in_tag: bool) -> Seq<TokenModel>
    decreases text.len() - i,
{
    if i >= text.len() {
        if start < text.len() {
            seq![text_token(text, start, text.len() as int)]
        } else {
            Seq::empty()
        }
    } else if in_tag && text[i] == ']' {
        seq![tag_token(text, start, i + 1)] + lex_from(text, i + 1, i + 1, false)
    } else if text[i] == '[' {
        if start < i {
            seq![text_token(text, start, i)] + lex_from(text, i + 1, i, true)
        } else {
            lex_from(text, i + 1, i, true)
        }
    } else {
        lex_from(text, i + 1, start, in_tag)
    }
}

/// The tokens of `text`.
pub open spec fn lex(text: Seq<char>) -> Seq<TokenModel> {
    lex_from(text, 0, 0, false)
}

/// The texts of `tokens`, one after the other.
pub open spec fn joined(tokens: Seq<TokenModel>) -> Seq<char>
    decreases tokens.len(),
{
    if tokens.len() == 0 {
        Seq::empty()
    } else {
        tokens[0].text + joined(tokens.drop_first())
    }
}

/// A token that opens a colour carries the colour in its text.
pub open spec fn carries_color(token: TokenModel) -> bool {
    token.token_type == TokenType::ColorOpen ==> token.text.len() >= COLOR_END
}

/// The texts of the tokens of a line, one after the other, are the line:
/// nothing is lost and nothing is added.
pub proof fn lemma_tokens_join(text: Seq<char>)
    ensures
        joined(lex(text)) == text,
{
    lemma_lex_from_joins(text, 0, 0, false);
    assert(text.subrange(0, text.len() as int) =~= text);
}

/// The texts of the tokens from `i` on make up the line from `start` on.
proof fn lemma_lex_from_joins(text: Seq<char>, i: int, start: int, in_tag: bool)
    requires
        0 <= start <= i <= text.len(),
    ensures
        joined(lex_from(text, i, start, in_tag)) == text.subrange(start, text.len() as int),
    decreases text.len() - i,
{
    let len = text.len() as int;
    let rest = text.subrange(start, len);
    if i >= len {
        if start < len {
            let only = seq![text_token(text, start, len)];
            assert(only.drop_first() =~= Seq::<TokenModel>::empty());
            assert(joined(only.drop_first()) =~= Seq::<char>::empty());
            assert(joined(only) =~= rest);
        } else {
            assert(rest =~= Seq::<char>::empty());
        }
    } else if in_tag && text[i] == ']' {
        lemma_lex_from_joins(text, i + 1, i + 1, false);
        let tail = lex_from(text, i + 1, i + 1, false);
        let all = seq![tag_token(text, start, i + 1)] + tail;
        assert(all.drop_first() =~= tail);
        assert(text.subrange(start, i + 1) + text.subrange(i + 1, len) =~= rest);
    } else if text[i] == '[' {
        lemma_lex_from_joins(text, i + 1, i, true);
        let tail = lex_from(text, i + 1, i, true);
        if start < i {
            let all = seq![text_token(text, start, i)] + tail;
            assert(all.drop_first() =~= tail);
            assert(text.subrange(start, i) + text.subrange(i, len) =~= rest);
        }
    } else {
        lemma_lex_from_joins(text, i + 1, start, in_tag);
    }
}

/// The characters of `text`, in a vector.
fn chars_of(text: &str) -> (chars: Vec<char>)
    ensures
        chars@ == text@,
{
    let mut chars: Vec<char> = Vec::new();
    for c in it: text.chars()
        invariant
            it.seq() == text@,
            chars@ == it.seq().take(it.index() as int),
    {
        chars.push(c);
        assert(chars@ =~= it.seq().take(it.index() + 1));
    }
    assert(chars@ =~= text@);
    chars
}

/// Whether `c` is a hexadecimal digit.
fn hex_digit(c: char) -> (r: bool)
    ensures
        r == is_hex_digit(c),
{
    ('0' <= c && c <= '9') || ('a' <= c && c <= 'f') || ('A' <= c && c <= 'F')
}

/// Whether the characters from `start` to `end` spell `word`.
fn spells(chars: &Vec<char>, start: usize, end: usize, word: &str) -> (r: bool)
    requires
        start <= end <= chars.len(),
    ensures
        r == (chars@.subrange(start as int, end as int) == word@),
{
    let n = word.unicode_len();
    if end - start != n {
        return false;
    }
    let ghost piece = chars@.subrange(start as int, end as int);
    let mut k: usize = 0;
    while k < n
        invariant
            k <= n,
            n == word@.len(),
            start + n == end <= chars.len(),
            piece == chars@.subrange(start as int, end as int),
            forall|j: int| 0 <= j < k ==> piece[j] == word@[j],
        decreases n - k,
    {
        if chars[start + k] != word.get_char(k) {
            assert(piece[k as int] != word@[k as int]);
            return false;
        }
        k += 1;
    }
    assert(piece =~= word@);
    true
}

/// Whether the characters from `start` to `end` open a colour.
fn spells_color(chars: &Vec<char>, start: usize, end: usize) -> (r: bool)
    requires
        start <= end <= chars.len(),
    ensures
        r == is_color_tag(chars@.subrange(start as int, end as int)),
{
    let ghost tag = chars@.subrange(start as int, end as int);
    if end - start != COLOR_TAG_LEN {
        return false;
    }
    assert(tag.subrange(0, COLOR_DIGITS_AT as int) =~= chars@.subrange(
        start as int,
        start + COLOR_DIGITS_AT,
    ));
    if !spells(chars, start, start + COLOR_DIGITS_AT, "[color=#") {
        return false;
    }
    if chars[start + COLOR_END] != ']' {
        return false;
    }
    let mut k: usize = COLOR_DIGITS_AT;
    while k < COLOR_END
        invariant
            COLOR_DIGITS_AT <= k <= COLOR_END,
            start + COLOR_TAG_LEN == end <= chars.len(),
            tag == chars@.subrange(start as int, end as int),
            forall|j: int| COLOR_DIGITS_AT <= j < k ==> is_hex_digit(#[trigger] tag[j]),
        decreases COLOR_END - k,
    {
        if !hex_digit(chars[start + k]) {
            assert(!is_hex_digit(tag[k as int]));
            return false;
        }
        k += 1;
    }
    true
}

/// What the bracketed piece from `start` to `end` is.
fn classify(chars: &Vec<char>, start: usize, end: usize) -> (r: TokenType)
    requires
        start <= end <= chars.len(),
    ensures
        r == tag_type(chars@.subrange(start as int, end as int)),
{
    if spells(chars, start, end, "[b]") {
        TokenType::BoldOpen
    } else if spells(chars, start, end, "[/b]") {
        TokenType::BoldClose
    } else if spells(chars, start, end, "[i]") {
        TokenType::ItalicOpen
    } else if spells(chars, start, end, "[/i]") {
        TokenType::ItalicClose
    } else if spells(chars, start, end, "[/color]") {
        TokenType::ColorClose
    } else if spells_color(chars, start, end) {
        TokenType::ColorOpen
    } else {
        TokenType::Text
    }
}

/// Cuts `text` into tokens: the tags, and the text between them.
pub fn lexer<'a>(text: &'a str) -> (tokens: Vec<Token<'a>>)
    ensures
        token_models(tokens@) == lex(text@),
        forall|i: int| 0 <= i < tokens@.len() ==> carries_color(#[trigger] tokens@[i]@),
{
    let chars = chars_of(text);
    let len = chars.len();
    let mut tokens: Vec<Token<'a>> = Vec::new();
    let mut start: usize = 0;
    let mut in_tag = false;
    let mut i: usize = 0;
    assert(token_models(tokens@) + lex(text@) =~= lex(text@));
    while i < len
        invariant
            start <= i <= len,
            len == text@.len(),
            chars@ == text@,
            lex(text@) == token_models(tokens@) + lex_from(text@, i as int, start as int, in_tag),
            forall|j: int| 0 <= j < tokens@.len() ==> carries_color(#[trigger] tokens@[j]@),
        decreases len - i,
    {
        let c = chars[i];
        let ghost before = token_models(tokens@);
        if in_tag && c == ']' {
            let token_type = classify(&chars, start, i + 1);
            tokens.push(Token { text: text.substring_char(start, i + 1), token_type });
            proof {
                let token = tag_token(text@, start as int, i + 1);
                let rest = lex_from(text@, i + 1, i + 1, false);
                assert(token_models(tokens@) =~= before.push(token));
                assert(before + (seq![token] + rest) =~= before.push(token) + rest);
            }
            in_tag = false;
            start = i + 1;
        } else if c == '[' {
            if start < i {
                tokens.push(Token { text: text.substring_char(start, i), token_type: TokenType::Text });
                proof {
                    let token = text_token(text@, start as int, i as int);
                    let rest = lex_from(text@, i + 1, i as int, true);
                    assert(token_models(tokens@) =~= before.push(token));
                    assert(before + (seq![token] + rest) =~= before.push(token) + rest);
                }
            }
            in_tag = true;
            start = i;
        }
        i += 1;
    }
    let ghost before = token_models(tokens@);
    if start < len {
        tokens.push(Token { text: text.substring_char(start, len), token_type: TokenType::Text });
        proof {
            let token = text_token(text@, start as int, len as int);
            assert(token_models(tokens@) =~= before.push(token));
            assert(before + seq![token] =~= before.push(token));
        }
    } else {
        assert(before + Seq::<TokenModel>::empty() =~= before);
    }
    tokens
}

/// The tag that closes what a token of the type `opened` opens. A token that
/// opens nothing is closed by the next text.
pub open spec fn closing(opened: TokenType) -> TokenType {
    match opened {
        TokenType::BoldOpen => TokenType::BoldClose,
        TokenType::ItalicOpen => TokenType::ItalicClose,
        TokenType::ColorOpen => TokenType::ColorClose,
        _ => TokenType::Text,
    }
}

/// The style inside what `token` opens: the style around it, with the one
/// thing changed that the token says.
pub open spec fn style_within(token: TokenModel, style: StyleModel) -> StyleModel {
    match token.token_type {
        TokenType::BoldOpen => StyleModel { font_weight: FontWeight::Bold, ..style },
        TokenType::ItalicOpen => StyleModel { font_style: FontStyle::Italic, ..style },
        TokenType::ColorOpen => StyleModel {
            color: token.text.subrange(COLOR_AT as int, COLOR_END as int),
            ..style
        },
        _ => style,
    }
}

/// The first token of the type `wanted` from `from` on and before `hi`, and
/// `hi` where there is none.
pub open spec fn find_closing(tokens: Seq<TokenModel>, wanted: TokenType, from: int, hi: int) -> int
    decreases hi - from,
{
    if from >= hi {
        hi
    } else if tokens[from].token_type == wanted {
        from
    } else {
        find_closing(tokens, wanted, from + 1, hi)
    }
}

/// The closing token is found at or behind the place where the search
/// starts, and not behind `hi`.
pub proof fn lemma_find_closing_bounds(tokens: Seq<TokenModel>, wanted: TokenType, from: int, hi: int)
    requires
        from <= hi,
    ensures
        from <= find_closing(tokens, wanted, from, hi) <= hi,
    decreases hi - from,
{
    if from < hi && tokens[from].token_type != wanted {
        lemma_find_closing_bounds(tokens, wanted, from + 1, hi);
    }
}

/// The nodes of the tokens from `lo` up to `hi`, set in `style`.
///
/// A token of text is a node. Any other token opens a stretch that reaches
/// up to its closing token, or to `hi` where there is none: the tokens of
/// the stretch are nodes in the style that the token asks for, and the
/// tokens behind the closing token follow in the style from before.
pub open spec fn parse_range(tokens: Seq<TokenModel>, style: StyleModel, lo: int, hi: int) -> Seq<
    NodeModel,
>
    decreases hi - lo,
{
    if lo >= hi {
        Seq::empty()
    } else if tokens[lo].token_type == TokenType::Text {
        seq![NodeModel { style, text: tokens[lo].text }] + parse_range(tokens, style, lo + 1, hi)
    } else {
        let close = find_closing(tokens, closing(tokens[lo].token_type), lo + 1, hi);
        proof {
            lemma_find_closing_bounds(tokens, closing(tokens[lo].token_type), lo + 1, hi);
        }
        let within = parse_range(tokens, style_within(tokens[lo], style), lo + 1, close);
        if close < hi {
            within + parse_range(tokens, style, close + 1, hi)
        } else {
            within
        }
    }
}

/// The nodes of `tokens`, set in `style`.
pub open spec fn parse(tokens: Seq<TokenModel>, style: StyleModel) -> Seq<NodeModel> {
    parse_range(tokens, style, 0, tokens.len() as int)
}

/// Finds the first token of the type `wanted` from `from` on and before `hi`.
fn find_token<'a>(tokens: &Vec<Token<'a>>, wanted: TokenType, from: usize, hi: usize) -> (r: usize)
    requires
        from <= hi <= tokens.len(),
    ensures
        r == find_closing(token_models(tokens@), wanted, from as int, hi as int),
        from <= r <= hi,
{
    let mut at: usize = from;
    while at < hi && tokens[at].token_type != wanted
        invariant
            from <= at <= hi <= tokens.len(),
            find_closing(token_models(tokens@), wanted, from as int, hi as int) == find_closing(
                token_models(tokens@),
                wanted,
                at as int,
                hi as int,
            ),
        decreases hi - at,
    {
        at += 1;
    }
    at
}

/// The style inside what `token` opens.
fn restyle<'a>(token: &Token<'a>, style: Style<'a>) -> (r: Style<'a>)
    requires
        carries_color(token@),
    ensures
        r@ == style_within(token@, style@),
{
    match token.token_type {
        TokenType::BoldOpen => Style {
            color: style.color,
            font_style: style.font_style,
            font_weight: FontWeight::Bold,
        },
        TokenType::ItalicOpen => Style {
            color: style.color,
            font_style: FontStyle::Italic,
            font_weight: style.font_weight,
        },
        TokenType::ColorOpen => Style {
            color: token.text.substring_char(COLOR_AT, COLOR_END),
            font_style: style.font_style,
            font_weight: style.font_weight,
        },
        _ => style,
    }
}

/// Appends the nodes of the tokens from `lo` up to `hi` to `output`.
fn parse_into<'a>(
    tokens: &Vec<Token<'a>>,
    style: Style<'a>,
    lo: usize,
    hi: usize,
    output: &mut Vec<Node<'a>>,
)
    requires
        lo <= hi <= tokens.len(),
        forall|i: int| 0 <= i < tokens@.len() ==> carries_color(#[trigger] tokens@[i]@),
    ensures
        node_models(final(output)@) == node_models(old(output)@) + parse_range(
            token_models(tokens@),
            style@,
            lo as int,
            hi as int,
        ),
    decreases hi - lo,
{
    let ghost models = token_models(tokens@);
    let ghost before = node_models(output@);
    let mut i: usize = lo;
    assert(before + parse_range(models, style@, lo as int, hi as int) =~= before + (Seq::<
        NodeModel,
    >::empty() + parse_range(models, style@, lo as int, hi as int)));
    while i < hi
        invariant
            lo <= i <= hi <= tokens.len(),
            models == token_models(tokens@),
            forall|j: int| 0 <= j < tokens@.len() ==> carries_color(#[trigger] tokens@[j]@),
            before + parse_range(models, style@, lo as int, hi as int) == node_models(output@)
                + parse_range(models, style@, i as int, hi as int),
        decreases hi - i,
    {
        let token = &tokens[i];
        let ghost so_far = node_models(output@);
        assert(models[i as int] == token@);
        if token.token_type == TokenType::Text {
            output.push(Node { style, text: token.text });
            proof {
                let node = NodeModel { style: style@, text: token@.text };
                let rest = parse_range(models, style@, i + 1, hi as int);
                assert(node_models(output@) =~= so_far.push(node));
                assert(so_far + (seq![node] + rest) =~= so_far.push(node) + rest);
            }
            i += 1;
        } else {
            let close = find_token(tokens, close_type(token.token_type), i + 1, hi);
            let new_style = restyle(token, style);
            parse_into(tokens, new_style, i + 1, close, output);
            proof {
                let within = parse_range(models, new_style@, i + 1, close as int);
                if close < hi {
                    let rest = parse_range(models, style@, close + 1, hi as int);
                    assert(so_far + (within + rest) =~= (so_far + within) + rest);
                } else {
                    assert((so_far + within) + parse_range(models, style@, hi as int, hi as int)
                        =~= so_far + within);
                }
            }
            if close < hi {
                i = close + 1;
            } else {
                i = hi;
            }
        }
    }
    assert(node_models(output@) + Seq::<NodeModel>::empty() =~= node_models(output@));
}

/// The tag that closes what a token of the type `opened` opens.
fn close_type(opened: TokenType) -> (r: TokenType)
    ensures
        r == closing(opened),
{
    match opened {
        TokenType::BoldOpen => TokenType::BoldClose,
        TokenType::ItalicOpen => TokenType::ItalicClose,
        TokenType::ColorOpen => TokenType::ColorClose,
        _ => TokenType::Text,
    }
}

/// Turns `tokens` into runs of text, starting in `style`. A token that opens
/// a colour must carry it: its text has at least 14 characters.
pub fn parser<'a>(tokens: Vec<Token<'a>>, style: Style<'a>) -> (output: Vec<Node<'a>>)
    requires
        forall|i: int| 0 <= i < tokens@.len() ==> carries_color(#[trigger] tokens@[i]@),
    ensures
        node_models(output@) == parse(token_models(tokens@), style@),
{
    let mut output: Vec<Node<'a>> = Vec::new();
    let len = tokens.len();
    parse_into(&tokens, style, 0, len, &mut output);
    assert(node_models(Seq::<Node>::empty()) + parse(token_models(tokens@), style@) =~= parse(
        token_models(tokens@),
        style@,
    ));
    output
}

/// Cuts `text` into tokens and turns them into runs of text, starting in
/// `style`.
pub fn styled_runs<'a>(text: &'a str, style: Style<'a>) -> (output: Vec<Node<'a>>)
    ensures
        node_models(output@) == parse(lex(text@), style@),
{
    parser(lexer(text), style)
}

} // verus!
