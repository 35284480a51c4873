//! The HTML tokens that the logo search reads, produced by `html5gum`.

use vstd::prelude::*;

verus! {

/// One token of an HTML document as the logo search sees it. The attributes of
/// a start tag are listed in the order in which `html5gum` yields them (by
/// name), as raw bytes.
pub enum HtmlToken {
    StartTag { name: Vec<u8>, attributes: Vec<(Vec<u8>, Vec<u8>)> },
    EndTag { name: Vec<u8> },
    Text(Vec<u8>),
    Other,
}

/// The mathematical form of an `HtmlToken`.
pub enum TokenView {
    StartTag { name: Seq<u8>, attributes: Seq<(Seq<u8>, Seq<u8>)> },
    EndTag { name: Seq<u8> },
    Text(Seq<u8>),
    Other,
}

/// Attributes by their bytes.
pub open spec fn attributes_view(a: Seq<(Vec<u8>, Vec<u8>)>) -> Seq<(Seq<u8>, Seq<u8>)> {
    Seq::new(a.len(), |i: int| (a[i].0@, a[i].1@))
}

impl View for HtmlToken {
    type V = TokenView;

    open spec fn view(&self) -> TokenView {
        match self {
            HtmlToken::StartTag { name, attributes } => TokenView::StartTag {
                name: name@,
                attributes: attributes_view(attributes@),
            },
            HtmlToken::EndTag { name } => TokenView::EndTag { name: name@ },
            HtmlToken::Text(t) => TokenView::Text(t@),
            HtmlToken::Other => TokenView::Other,
        }
    }
}

/// The tokens of one document, in order.
pub struct TokenStream {
    pub tokens: Vec<HtmlToken>,
}

impl View for TokenStream {
    type V = Seq<TokenView>;

    open spec fn view(&self) -> Seq<TokenView> {
        Seq::new(self.tokens@.len(), |i: int| self.tokens@[i]@)
    }
}

/// What `html5gum::Tokenizer` yields for the document `html`, each token
/// taken as a `TokenView` (comments, doctypes and parse errors as `Other`).
pub uninterp spec fn html_tokens(html: Seq<char>) -> Seq<TokenView>;

/// Splits `html` into tokens with `html5gum::Tokenizer`; the result is named
/// `html_tokens`.
#[verifier::external_body]
pub(crate) fn tokenize(html: &str) -> (r: TokenStream)
    ensures
        r@ == html_tokens(html@),
{
    let mut tokens = Vec::new();
    for token in html5gum::Tokenizer::new(html).flatten() {
        tokens.push(match token {
            html5gum::Token::StartTag(tag) => HtmlToken::StartTag {
                name: tag.name.0,
                attributes: tag.attributes.into_iter().map(|(k, v)| (k.0, v.value.0)).collect(),
            },
            html5gum::Token::EndTag(tag) => HtmlToken::EndTag { name: tag.name.0 },
            html5gum::Token::String(s) => HtmlToken::Text(s.value.0),
            _ => HtmlToken::Other,
        });
    }
    TokenStream { tokens }
}

} // verus!
