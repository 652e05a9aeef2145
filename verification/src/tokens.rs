//! Token streams of `proc_macro2`, seen as sequences of token trees.
//!
//! A stream is opaque to the verifier. What it holds has a name, [`stream_tokens`], and every
//! operation on a stream states what it does to that sequence. The functions that emit code are
//! verified against these statements.

use proc_macro2::TokenStream;
use quote::{ToTokens, TokenStreamExt};
use vstd::prelude::*;
use vstd::string::*;

verus! {

/// The brackets around a token group.
#[derive(Clone, Copy, PartialEq, Eq, Debug, Structural)]
pub enum Bracketing {
    /// `( ... )`
    Parenthesis,
    /// `{ ... }`
    Brace,
    /// `[ ... ]`
    Bracket,
    /// A group without visible brackets.
    Invisible,
}

/// A token tree.
pub enum Token {
    /// An identifier or keyword; a raw identifier carries its `r#`.
    Ident(Seq<char>),
    /// A punctuation character, and whether it joins with the one that follows it.
    Punct(char, bool),
    /// A literal as it is written in source code.
    Literal(Seq<char>),
    /// A bracketed sequence of tokens.
    Group(Bracketing, Seq<Token>),
}

/// The token stream of `proc_macro2`.
#[verifier::external_type_specification]
#[verifier::external_body]
pub struct ExTokenStream(TokenStream);

/// The token trees that a stream holds, in order.
pub uninterp spec fn stream_tokens(stream: TokenStream) -> Seq<Token>;

/// The text of a token tree. A brace is set off from what it encloses by a space.
pub open spec fn tree_text(token: Token) -> Seq<char>
    decreases token,
{
    match token {
        Token::Ident(name) => name,
        Token::Punct(c, _) => seq![c],
        Token::Literal(text) => text,
        Token::Group(bracketing, content) => match bracketing {
            Bracketing::Parenthesis => seq!['('] + token_text(content) + seq![')'],
            Bracketing::Brace => if content.len() == 0 {
                seq!['{', ' ', '}']
            } else {
                seq!['{', ' '] + token_text(content) + seq![' ', '}']
            },
            Bracketing::Bracket => seq!['['] + token_text(content) + seq![']'],
            Bracketing::Invisible => token_text(content),
        },
    }
}

/// The text that a stream with the given token trees is printed as: a space stands between two
/// of them, unless the first one is a punctuation character that joins.
pub open spec fn token_text(tokens: Seq<Token>) -> Seq<char>
    decreases tokens,
{
    if tokens.len() == 0 {
        Seq::empty()
    } else {
        let before = tokens.drop_last();
        let joined = before.len() == 0 || before.last() matches Token::Punct(_, true);
        token_text(before) + if joined {
            Seq::empty()
        } else {
            seq![' ']
        } + tree_text(tokens.last())
    }
}

/// Whether a character outside ASCII has the Unicode property `XID_Start`.
pub uninterp spec fn unicode_xid_start(c: char) -> bool;

/// Whether a character outside ASCII has the Unicode property `XID_Continue`.
pub uninterp spec fn unicode_xid_continue(c: char) -> bool;

/// Whether `c` is an ASCII character.
pub open spec fn is_ascii_char(c: char) -> bool {
    (c as u32) < 128
}

/// Whether `c` is an ASCII letter.
pub open spec fn is_ascii_letter(c: char) -> bool {
    ('a' <= c && c <= 'z') || ('A' <= c && c <= 'Z')
}

/// Whether an identifier can begin with `c`.
pub open spec fn starts_identifier(c: char) -> bool {
    if is_ascii_char(c) {
        is_ascii_letter(c) || c == '_'
    } else {
        unicode_xid_start(c)
    }
}

/// Whether `c` can stand inside an identifier.
pub open spec fn continues_identifier(c: char) -> bool {
    if is_ascii_char(c) {
        is_ascii_letter(c) || c == '_' || ('0' <= c && c <= '9')
    } else {
        unicode_xid_continue(c)
    }
}

/// Whether `s` is an identifier or keyword of the language, `_` among them.
pub open spec fn is_plain_identifier(s: Seq<char>) -> bool {
    &&& s.len() > 0
    &&& starts_identifier(s[0])
    &&& forall|i: int| 0 < i < s.len() ==> continues_identifier(#[trigger] s[i])
}

/// Whether `r#` in front of `s` makes a raw identifier.
pub open spec fn is_raw_identifier(s: Seq<char>) -> bool {
    &&& is_plain_identifier(s)
    &&& s != "_"@
    &&& s != "super"@
    &&& s != "self"@
    &&& s != "Self"@
    &&& s != "crate"@
}

/// Whether `s` begins with the prefix of raw identifiers.
pub open spec fn has_raw_prefix(s: Seq<char>) -> bool {
    s.len() >= 2 && s[0] == 'r' && s[1] == '#'
}

/// Whether `s` is the name of an identifier token, plain or raw.
pub open spec fn is_identifier(s: Seq<char>) -> bool {
    if has_raw_prefix(s) {
        is_raw_identifier(s.skip(2))
    } else {
        is_plain_identifier(s)
    }
}

/// Whether `c` is a punctuation character of the language.
pub open spec fn is_punctuation(c: char) -> bool {
    ||| c == '!'
    ||| c == '#'
    ||| c == '$'
    ||| c == '%'
    ||| c == '&'
    ||| c == '\''
    ||| c == '*'
    ||| c == '+'
    ||| c == ','
    ||| c == '-'
    ||| c == '.'
    ||| c == '/'
    ||| c == ':'
    ||| c == ';'
    ||| c == '<'
    ||| c == '='
    ||| c == '>'
    ||| c == '?'
    ||| c == '@'
    ||| c == '^'
    ||| c == '|'
    ||| c == '~'
}

/// Whether `after` is `before` with the tokens `added` behind it.
pub open spec fn appends(before: TokenStream, after: TokenStream, added: Seq<Token>) -> bool {
    stream_tokens(after) == stream_tokens(before) + added
}

/// A punctuation token that stands for itself.
pub open spec fn punct(c: char) -> Seq<Token> {
    seq![Token::Punct(c, false)]
}

/// An operator of two punctuation characters.
pub open spec fn operator(first: char, second: char) -> Seq<Token> {
    seq![Token::Punct(first, true), Token::Punct(second, false)]
}

/// An identifier token.
pub open spec fn ident(name: Seq<char>) -> Seq<Token> {
    seq![Token::Ident(name)]
}

/// A bracketed group.
pub open spec fn group(bracketing: Bracketing, content: Seq<Token>) -> Seq<Token> {
    seq![Token::Group(bracketing, content)]
}

/// A path whose segments are separated by `::`.
pub open spec fn path(segments: Seq<Seq<char>>) -> Seq<Token>
    decreases segments.len(),
{
    if segments.len() == 0 {
        Seq::empty()
    } else if segments.len() == 1 {
        ident(segments[0])
    } else {
        path(segments.drop_last()) + operator(':', ':') + ident(segments.last())
    }
}

/// `unicode_ident::is_xid_start`: of the ASCII characters it accepts the letters; beyond them
/// its result has a name.
pub assume_specification[ unicode_ident::is_xid_start ](ch: char) -> (r: bool)
    ensures
        is_ascii_char(ch) ==> r == is_ascii_letter(ch),
        !is_ascii_char(ch) ==> r == unicode_xid_start(ch),
;

/// `unicode_ident::is_xid_continue`: of the ASCII characters it accepts letters, digits and the
/// underscore; beyond them its result has a name.
pub assume_specification[ unicode_ident::is_xid_continue ](ch: char) -> (r: bool)
    ensures
        is_ascii_char(ch) ==> r == (is_ascii_letter(ch) || ch == '_' || ('0' <= ch && ch <= '9')),
        !is_ascii_char(ch) ==> r == unicode_xid_continue(ch),
;

/// `proc_macro2::TokenStream::new` gives a stream without tokens.
pub assume_specification[ TokenStream::new ]() -> (r: TokenStream)
    ensures
        stream_tokens(r) == Seq::<Token>::empty(),
;

/// Cloning a `proc_macro2::TokenStream` keeps its tokens.
pub assume_specification[ <TokenStream as Clone>::clone ](stream: &TokenStream) -> (r: TokenStream)
    ensures
        stream_tokens(r) == stream_tokens(*stream),
;

/// Appends the identifier that `proc_macro2::Ident::new` makes of `name`, which must be one that
/// it accepts.
#[verifier::external_body]
pub(crate) fn push_plain_ident(stream: &mut TokenStream, name: &str)
    requires
        is_plain_identifier(name@),
    ensures
        stream_tokens(*final(stream)) == stream_tokens(*old(stream)).push(Token::Ident(name@)),
{
    stream.append(proc_macro2::Ident::new(name, proc_macro2::Span::call_site()));
}

/// Appends the identifier that `proc_macro2::Ident::new_raw` makes of `name`, which must be one
/// that it accepts. Its text is `name` behind `r#`.
#[verifier::external_body]
pub(crate) fn push_raw_ident(stream: &mut TokenStream, name: &str)
    requires
        is_raw_identifier(name@),
    ensures
        stream_tokens(*final(stream)) == stream_tokens(*old(stream)).push(
            Token::Ident("r#"@ + name@),
        ),
{
    stream.append(proc_macro2::Ident::new_raw(name, proc_macro2::Span::call_site()));
}

/// Appends the `proc_macro2::Punct` of a punctuation character, spaced as `joint` says.
#[verifier::external_body]
pub(crate) fn push_punct(stream: &mut TokenStream, c: char, joint: bool)
    requires
        is_punctuation(c),
    ensures
        stream_tokens(*final(stream)) == stream_tokens(*old(stream)).push(Token::Punct(c, joint)),
{
    let spacing = if joint { proc_macro2::Spacing::Joint } else { proc_macro2::Spacing::Alone };
    stream.append(proc_macro2::Punct::new(c, spacing));
}

/// Appends the string literal that `proc_macro2::Literal::string` makes of `content`. Letters,
/// digits and underscores stand in it as they are, between quotation marks.
#[verifier::external_body]
pub(crate) fn push_string_literal(stream: &mut TokenStream, content: &str)
    requires
        forall|i: int| 0 <= i < content@.len() ==> is_ascii_char(#[trigger] content@[i])
            && continues_identifier(content@[i]),
    ensures
        stream_tokens(*final(stream)) == stream_tokens(*old(stream)).push(
            Token::Literal("\""@ + content@ + "\""@),
        ),
{
    stream.append(proc_macro2::Literal::string(content));
}

/// Appends the literal that `proc_macro2::Literal::usize_unsuffixed` makes of `n`: its decimal
/// notation.
#[verifier::external_body]
pub(crate) fn push_number_literal(stream: &mut TokenStream, n: usize)
    ensures
        stream_tokens(*final(stream)) == stream_tokens(*old(stream)).push(
            Token::Literal(crate::text::decimal(n as nat)),
        ),
{
    stream.append(proc_macro2::Literal::usize_unsuffixed(n));
}

/// Appends the `proc_macro2::Group` with the given brackets around `content`.
#[verifier::external_body]
pub(crate) fn push_group(stream: &mut TokenStream, bracketing: Bracketing, content: TokenStream)
    ensures
        stream_tokens(*final(stream)) == stream_tokens(*old(stream)).push(
            Token::Group(bracketing, stream_tokens(content)),
        ),
{
    let delimiter = match bracketing {
        Bracketing::Parenthesis => proc_macro2::Delimiter::Parenthesis,
        Bracketing::Brace => proc_macro2::Delimiter::Brace,
        Bracketing::Bracket => proc_macro2::Delimiter::Bracket,
        Bracketing::Invisible => proc_macro2::Delimiter::None,
    };
    stream.append(proc_macro2::Group::new(delimiter, content));
}

/// Appends the tokens of another stream, by `quote::ToTokens::to_tokens`.
#[verifier::external_body]
pub(crate) fn push_stream(stream: &mut TokenStream, more: &TokenStream)
    ensures
        appends(*old(stream), *final(stream), stream_tokens(*more)),
{
    more.to_tokens(stream);
}

/// Prints a stream by the `Display` implementation of `proc_macro2::TokenStream`, which is that
/// of its own streams, as the crate is built without the compiler's.
#[verifier::external_body]
pub(crate) fn stream_text(stream: &TokenStream) -> (r: String)
    ensures
        r@ == token_text(stream_tokens(*stream)),
{
    stream.to_string()
}

/// Tells whether `s` is an identifier or keyword.
pub fn check_plain_identifier(s: &str) -> (r: bool)
    ensures
        r == is_plain_identifier(s@),
{
    let chars = crate::text::chars_of(s);
    if chars.len() == 0 {
        return false;
    }
    let first: char = chars[0];
    if !(first == '_' || unicode_ident::is_xid_start(first)) {
        return false;
    }
    for i in 1..chars.len()
        invariant
            chars@ == s@,
            chars.len() > 0,
            starts_identifier(s@[0]),
            forall|j: int| 0 < j < i ==> continues_identifier(#[trigger] s@[j]),
    {
        if !unicode_ident::is_xid_continue(chars[i]) {
            assert(!continues_identifier(s@[i as int]));
            return false;
        }
    }
    true
}

/// The text behind the first two characters.
fn without_prefix(s: &str) -> (r: &str)
    requires
        s@.len() >= 2,
    ensures
        r@ == s@.skip(2),
{
    let n: usize = s.unicode_len();
    let r = s.substring_char(2, n);
    assert(r@ =~= s@.skip(2));
    r
}

fn check_raw_prefix(s: &str) -> (r: bool)
    ensures
        r == has_raw_prefix(s@),
{
    s.unicode_len() >= 2 && s.get_char(0) == 'r' && s.get_char(1) == '#'
}

/// Tells whether `s` is the name of an identifier token, plain or raw.
pub fn check_identifier(s: &str) -> (r: bool)
    ensures
        r == is_identifier(s@),
{
    if !check_raw_prefix(s) {
        return check_plain_identifier(s);
    }
    let name = without_prefix(s).to_string();
    let reserved = name == "_".to_string() || name == "super".to_string() || name
        == "self".to_string() || name == "Self".to_string() || name == "crate".to_string();
    check_plain_identifier(name.as_str()) && !reserved
}

/// Appends the identifier called `name`.
pub fn push_ident(stream: &mut TokenStream, name: &str)
    requires
        is_identifier(name@),
    ensures
        appends(*old(stream), *final(stream), ident(name@)),
{
    if check_raw_prefix(name) {
        proof {
            reveal_strlit("r#");
            assert("r#"@ + name@.skip(2) =~= name@);
        }
        push_raw_ident(stream, without_prefix(name));
    } else {
        push_plain_ident(stream, name);
    }
    assert(stream_tokens(*stream) =~= stream_tokens(*old(stream)) + ident(name@));
}

/// Appends a word that is known to be an identifier or keyword.
pub(crate) fn push_word(stream: &mut TokenStream, word: &str)
    requires
        is_plain_identifier(word@),
    ensures
        appends(*old(stream), *final(stream), ident(word@)),
{
    push_plain_ident(stream, word);
    assert(stream_tokens(*stream) =~= stream_tokens(*old(stream)) + ident(word@));
}

/// Appends a single punctuation character.
pub(crate) fn push_mark(stream: &mut TokenStream, c: char)
    requires
        is_punctuation(c),
    ensures
        appends(*old(stream), *final(stream), punct(c)),
{
    push_punct(stream, c, false);
    assert(stream_tokens(*stream) =~= stream_tokens(*old(stream)) + punct(c));
}

/// Appends an operator of two punctuation characters.
pub(crate) fn push_operator(stream: &mut TokenStream, first: char, second: char)
    requires
        is_punctuation(first),
        is_punctuation(second),
    ensures
        appends(*old(stream), *final(stream), operator(first, second)),
{
    push_punct(stream, first, true);
    push_punct(stream, second, false);
    assert(stream_tokens(*stream) =~= stream_tokens(*old(stream)) + operator(first, second));
}

/// Appends a bracketed group.
pub(crate) fn push_bracketed(stream: &mut TokenStream, bracketing: Bracketing, content: TokenStream)
    ensures
        appends(*old(stream), *final(stream), group(bracketing, stream_tokens(content))),
{
    push_group(stream, bracketing, content);
    assert(stream_tokens(*stream) =~= stream_tokens(*old(stream)) + group(
        bracketing,
        stream_tokens(content),
    ));
}

/// The segments of a path as texts.
pub open spec fn segment_texts(segments: Seq<&str>) -> Seq<Seq<char>> {
    Seq::new(segments.len(), |i: int| segments[i]@)
}

/// Appends a path of the given segments.
pub(crate) fn push_path(stream: &mut TokenStream, segments: &[&str])
    requires
        forall|i: int|
            0 <= i < segments@.len() ==> is_plain_identifier(#[trigger] segments@[i]@),
    ensures
        appends(*old(stream), *final(stream), path(segment_texts(segments@))),
{
    let ghost all = segment_texts(segments@);
    for i in 0..segments.len()
        invariant
            all == segment_texts(segments@),
            forall|j: int|
                0 <= j < segments@.len() ==> is_plain_identifier(#[trigger] segments@[j]@),
            stream_tokens(*stream) == stream_tokens(*old(stream)) + path(all.take(i as int)),
    {
        assert(all.take(i + 1).drop_last() =~= all.take(i as int));
        if i > 0 {
            push_operator(stream, ':', ':');
        }
        push_word(stream, segments[i]);
        assert(stream_tokens(*stream) =~= stream_tokens(*old(stream)) + path(all.take(i + 1)));
    }
    assert(all.take(segments@.len() as int) =~= all);
}

} // verus!
