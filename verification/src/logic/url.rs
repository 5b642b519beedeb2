//! Deciding whether a URL may be handed to the operating system.
//!
//! An allowlist of two schemes and a set of structural refusals. The string
//! is never rewritten: what is checked is exactly what is opened.
use vstd::prelude::*;

use crate::text::{chars_of, control, eq_ignore_case, is_control, is_whitespace, lower_seq, whitespace};

verus! {

/// A generous ceiling, in bytes.
pub const MAX_LENGTH: usize = 2048;

/// Why a URL was refused.
#[derive(Debug, Clone, Copy, PartialEq, Eq, Structural)]
pub enum UrlRejection {
    Empty,
    TooLong,
    /// Not `http://` or `https://`.
    UnsupportedScheme,
    /// Contains a control character, whitespace, or a NUL.
    IllegalCharacter,
    /// `http://` with nothing after it, or an empty authority.
    MissingHost,
}

impl UrlRejection {
    pub open spec fn spec_reason(self) -> &'static str {
        match self {
            UrlRejection::Empty => "the URL is empty",
            UrlRejection::TooLong => "the URL is longer than 2048 characters",
            UrlRejection::UnsupportedScheme => "only http:// and https:// URLs can be opened",
            UrlRejection::IllegalCharacter => "the URL contains whitespace or a control character",
            UrlRejection::MissingHost => "the URL has no host",
        }
    }

    /// The phrase an error message carries.
    pub fn reason(self) -> (r: &'static str)
        ensures
            r == self.spec_reason(),
    {
        match self {
            UrlRejection::Empty => "the URL is empty",
            UrlRejection::TooLong => "the URL is longer than 2048 characters",
            UrlRejection::UnsupportedScheme => "only http:// and https:// URLs can be opened",
            UrlRejection::IllegalCharacter => "the URL contains whitespace or a control character",
            UrlRejection::MissingHost => "the URL has no host",
        }
    }
}

/// The schemes that may be opened, in the order they are tried.
pub open spec fn spec_allowed() -> Seq<&'static str> {
    seq!["http://", "https://"]
}

/// The first allowed scheme that begins `u` (ignoring ASCII case).
pub open spec fn scheme_of(u: Seq<char>, schemes: Seq<&'static str>) -> Option<Seq<char>>
    decreases schemes.len(),
{
    if schemes.len() == 0 {
        None
    } else {
        let s = schemes[0]@;
        if u.len() >= s.len() && lower_seq(u.take(s.len() as int)) == lower_seq(s) {
            Some(s)
        } else {
            scheme_of(u, schemes.drop_first())
        }
    }
}

pub open spec fn has_illegal_char(u: Seq<char>) -> bool {
    exists|i: int| 0 <= i < u.len() && (is_control(#[trigger] u[i]) || is_whitespace(u[i]))
}

/// The verdict on a URL, checked in this order: empty, longer than 2048
/// bytes, a control or whitespace character, a scheme other than `http://`
/// or `https://`, and no host after the scheme.
pub open spec fn spec_validate(url: &str) -> Result<(), UrlRejection> {
    let u = url@;
    if u.len() == 0 {
        Err(UrlRejection::Empty)
    } else if url.len() > MAX_LENGTH {
        Err(UrlRejection::TooLong)
    } else if has_illegal_char(u) {
        Err(UrlRejection::IllegalCharacter)
    } else {
        match scheme_of(u, spec_allowed()) {
            None => Err(UrlRejection::UnsupportedScheme),
            Some(s) => if u.len() == s.len() || u[s.len() as int] == '/' {
                Err(UrlRejection::MissingHost)
            } else {
                Ok(())
            },
        }
    }
}

proof fn lemma_scheme_fits(u: Seq<char>, schemes: Seq<&'static str>)
    ensures
        scheme_of(u, schemes) matches Some(s) ==> s.len() <= u.len(),
    decreases schemes.len(),
{
    if schemes.len() > 0 {
        lemma_scheme_fits(u, schemes.drop_first());
    }
}

/// The allowed scheme that begins `u`, if any.
fn scheme_prefix(u: &[char]) -> (r: Option<Vec<char>>)
    ensures
        match (r, scheme_of(u@, spec_allowed())) {
            (Some(v), Some(s)) => v@ == s,
            (None, None) => true,
            _ => false,
        },
{
    let allowed: Vec<&'static str> = vec!["http://", "https://"];
    let mut k: usize = 0;
    proof {
        assert(allowed@.skip(0) =~= allowed@);
    }
    while k < allowed.len()
        invariant
            allowed@ == spec_allowed(),
            k <= allowed@.len(),
            scheme_of(u@, spec_allowed()) == scheme_of(u@, allowed@.skip(k as int)),
        decreases allowed@.len() - k,
    {
        let s = chars_of(allowed[k]);
        proof {
            assert(allowed@.skip(k as int)[0] == allowed@[k as int]);
            assert(allowed@.skip(k as int).drop_first() =~= allowed@.skip(k + 1));
        }
        if u.len() >= s.len() {
            let mut head: Vec<char> = Vec::new();
            let mut j: usize = 0;
            while j < s.len()
                invariant
                    j <= s@.len() <= u@.len(),
                    head@ == u@.take(j as int),
                decreases s@.len() - j,
            {
                head.push(u[j]);
                proof {
                    assert(u@.take(j as int).push(u@[j as int]) =~= u@.take(j + 1));
                }
                j = j + 1;
            }
            if eq_ignore_case(head.as_slice(), s.as_slice()) {
                return Some(s);
            }
        }
        k = k + 1;
    }
    proof {
        assert(allowed@.skip(allowed@.len() as int) =~= Seq::<&'static str>::empty());
    }
    None
}

/// Check a URL, returning it unchanged if it may be opened.
pub fn validate(url: &str) -> (r: Result<&str, UrlRejection>)
    ensures
        match (r, spec_validate(url)) {
            (Ok(u), Ok(())) => u == url,
            (Err(a), Err(b)) => a == b,
            _ => false,
        },
{
    let u = chars_of(url);
    if u.len() == 0 {
        return Err(UrlRejection::Empty);
    }
    if url.len() > MAX_LENGTH {
        return Err(UrlRejection::TooLong);
    }
    let mut i: usize = 0;
    while i < u.len()
        invariant
            i <= u@.len(),
            u@ == url@,
            u@.len() > 0,
            url.len() <= MAX_LENGTH,
            forall|j: int| 0 <= j < i ==> !(is_control(#[trigger] u@[j]) || is_whitespace(u@[j])),
        decreases u@.len() - i,
    {
        if control(u[i]) || whitespace(u[i]) {
            proof {
                assert(is_control(u@[i as int]) || is_whitespace(u@[i as int]));
                assert(has_illegal_char(url@));
            }
            return Err(UrlRejection::IllegalCharacter);
        }
        i = i + 1;
    }
    proof {
        assert(!has_illegal_char(u@));
        lemma_scheme_fits(u@, spec_allowed());
    }
    let s = match scheme_prefix(u.as_slice()) {
        Some(s) => s,
        None => return Err(UrlRejection::UnsupportedScheme),
    };
    if u.len() == s.len() || u[s.len()] == '/' {
        return Err(UrlRejection::MissingHost);
    }
    Ok(url)
}

/// Nothing but a web address reaches the shell: an accepted URL begins with
/// `http://` or `https://` (in any ASCII case), names a host after it, and
/// carries no whitespace and no control character.
pub proof fn law_accepted_urls_are_web_addresses(url: &str)
    requires
        spec_validate(url) is Ok,
    ensures
        !has_illegal_char(url@),
        exists|k: int|
            0 <= k < spec_allowed().len() && url@.len() > (#[trigger] spec_allowed()[k])@.len()
                && lower_seq(url@.take(spec_allowed()[k]@.len() as int)) == lower_seq(spec_allowed()[k]@)
                && url@[spec_allowed()[k]@.len() as int] != '/',
{
    let u = url@;
    let a = spec_allowed();
    let b = a.drop_first();
    assert(b.drop_first().len() == 0);
    assert(scheme_of(u, b.drop_first()) is None);
    if u.len() >= a[0]@.len() && lower_seq(u.take(a[0]@.len() as int)) == lower_seq(a[0]@) {
        assert(scheme_of(u, a) == Some(a[0]@));
        assert(spec_allowed()[0]@.len() < u.len());
    } else {
        assert(scheme_of(u, a) == scheme_of(u, b));
        assert(b[0] == a[1]);
        assert(u.len() >= b[0]@.len() && lower_seq(u.take(b[0]@.len() as int)) == lower_seq(b[0]@));
        assert(scheme_of(u, a) == Some(a[1]@));
        assert(spec_allowed()[1]@.len() < u.len());
    }
}

/// What is opened, exactly: a URL is accepted if and only if it is not
/// empty, is at most 2048 bytes, holds no whitespace and no control
/// character, and begins with `http://` or `https://` in any ASCII case with
/// something other than `/` right after the scheme.
pub proof fn law_urls_opened_are_exactly_web_addresses(url: &str)
    ensures
        spec_validate(url) is Ok <==> ({
            let u = url@;
            &&& u.len() > 0
            &&& url.len() <= 2048
            &&& forall|i: int| 0 <= i < u.len() ==> !is_control(#[trigger] u[i]) && !is_whitespace(u[i])
            &&& (u.len() > 7 && lower_seq(u.take(7)) == "http://"@ && u[7] != '/') || (u.len() > 8 && lower_seq(
                u.take(8),
            ) == "https://"@ && u[8] != '/')
        }),
{
    reveal_strlit("http://");
    reveal_strlit("https://");
    let u = url@;
    let a = spec_allowed();
    let b = a.drop_first();
    assert(a[0]@ == "http://"@ && a[1]@ == "https://"@);
    assert(b.drop_first().len() == 0);
    assert(scheme_of(u, b.drop_first()) is None);
    assert(b[0] == a[1]);
    assert(lower_seq("http://"@) =~= "http://"@);
    assert(lower_seq("https://"@) =~= "https://"@);
    if u.len() >= 7 && lower_seq(u.take(7)) == "http://"@ {
        assert(scheme_of(u, a) == Some("http://"@));
        if u.len() > 8 {
            assert(lower_seq(u.take(8))[4] == lower_seq(u.take(7))[4]);
            assert(lower_seq(u.take(8)) != "https://"@);
        }
    } else {
        assert(scheme_of(u, a) == scheme_of(u, b));
    }
    assert(has_illegal_char(u) <==> !(forall|i: int| 0 <= i < u.len() ==> !is_control(#[trigger] u[i]) && !is_whitespace(u[i])));
}

} // verus!
