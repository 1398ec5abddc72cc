//! Web addresses, as the Url type that reqwest hands on reads them.

use reqwest::Url;
use vstd::prelude::*;

use crate::text::{opt_view, same_text, stands_at};

verus! {

/// A web address: its scheme and its whole text.
pub struct Address {
    pub scheme: String,
    pub text: String,
}

impl View for Address {
    type V = (Seq<char>, Seq<char>);

    open spec fn view(&self) -> (Seq<char>, Seq<char>) {
        (self.scheme@, self.text@)
    }
}

/// Scheme and text of the address that `Url::parse` reads from a text.
pub uninterp spec fn address_of(text: Seq<char>) -> Option<(Seq<char>, Seq<char>)>;

/// Calls `Url::parse`. The text of an address opens with its scheme and a colon. Which texts are
/// addresses is left to the name `address_of`.
#[verifier::external_body]
pub(crate) fn parse_address(text: &str) -> (r: Option<Address>)
    ensures
        opt_view(r) == address_of(text@),
        r matches Some(address) ==> stands_at(address.text@, address.scheme@.push(':'), 0),
{
    Url::parse(text).ok().map(|url| Address {
        scheme: url.scheme().to_owned(),
        text: url.into(),
    })
}

/// Scheme and text of the address that `Url::join` finds for a reference on a base address.
pub uninterp spec fn reference_of(base: Seq<char>, reference: Seq<char>) -> Option<
    (Seq<char>, Seq<char>),
>;

/// The address that a reference leads to: its scheme, its whole text, and the text without the
/// fragment.
pub struct Target {
    pub scheme: String,
    pub text: String,
    pub page: String,
}

impl View for Target {
    type V = (Seq<char>, Seq<char>, Seq<char>);

    open spec fn view(&self) -> (Seq<char>, Seq<char>, Seq<char>) {
        (self.scheme@, self.text@, self.page@)
    }
}

/// Whether a scheme is one of the two of the web.
pub open spec fn is_web_scheme(scheme: Seq<char>) -> bool {
    scheme == "http"@ || scheme == "https"@
}

/// The text up to the first number sign: an address without its fragment.
pub open spec fn without_fragment(text: Seq<char>) -> Seq<char>
    decreases text.len(),
{
    if text.len() == 0 || text[0] == '#' {
        seq![]
    } else {
        seq![text[0]] + without_fragment(text.skip(1))
    }
}

/// Calls `Url::join` on the address that `Url::parse` reads from `base`; nothing where either
/// fails. The text of an address opens with its scheme and a colon. `Url::set_fragment` with
/// nothing cuts a web address at the number sign that opens the fragment, the first one.
#[verifier::external_body]
pub(crate) fn resolve(base: &str, reference: &str) -> (r: Option<Target>)
    ensures
        match r {
            Some(target) => reference_of(base@, reference@) == Some((target.scheme@, target.text@)),
            None => reference_of(base@, reference@) is None,
        },
        r matches Some(target) ==> stands_at(target.text@, target.scheme@.push(':'), 0),
        r matches Some(target) ==> is_web_scheme(target.scheme@) ==> target.page@
            == without_fragment(target.text@),
{
    let mut url = Url::parse(base).ok()?.join(reference).ok()?;
    let (scheme, text) = (url.scheme().to_owned(), url.to_string());
    url.set_fragment(None);
    Some(Target { scheme, text, page: url.into() })
}

/// Tells whether a scheme is one of the two of the web.
pub fn has_web_scheme(scheme: &str) -> (r: bool)
    ensures
        r == is_web_scheme(scheme@),
{
    same_text(scheme, "http") || same_text(scheme, "https")
}

/// A text without its fragment is all that stands before the first number sign, or all of it.
pub proof fn law_without_fragment(text: Seq<char>)
    ensures
        without_fragment(text).len() <= text.len(),
        without_fragment(text) == text.take(without_fragment(text).len() as int),
        !without_fragment(text).contains('#'),
        without_fragment(text).len() < text.len() ==> text[without_fragment(text).len() as int]
            == '#',
    decreases text.len(),
{
    if text.len() > 0 && text[0] != '#' {
        let rest = text.skip(1);
        law_without_fragment(rest);
        let left = without_fragment(rest);
        let whole = without_fragment(text);
        assert(whole =~= text.take(whole.len() as int)) by {
            assert forall|i: int| 0 <= i < whole.len() implies whole[i] == text[i] by {
                if i > 0 {
                    assert(whole[i] == left[i - 1]);
                    assert(left[i - 1] == rest.take(left.len() as int)[i - 1]);
                }
            }
        }
        assert forall|i: int| 0 <= i < whole.len() implies whole[i] != '#' by {
            if i > 0 {
                assert(left.contains(left[i - 1]));
            }
        }
        if whole.len() < text.len() {
            assert(rest[left.len() as int] == text[whole.len() as int]);
        }
    } else {
        assert(text.take(0) =~= seq![]);
    }
}

} // verus!
