//! The envelope address, the reasons for which a text is no address, and the
//! parser that yields one or the other.

use vstd::prelude::*;
use vstd::string::*;
use crate::text::{
    any_whitespace, ascii_lowercase, find_char, first_index, has_whitespace, lemma_first_index,
    to_ascii_lowercase, to_chars, trim, trim_bounds,
};

verus! {

broadcast use vstd::string::group_string_axioms;

/// Why a text is not an envelope address.
#[derive(Clone, Copy, Debug, PartialEq, Eq, Structural)]
pub enum AddrError {
    /// Nothing is left of the token, or of its local part or its domain.
    /// The null address `<>` is not empty in this sense.
    Empty,
    /// The token holds no `@`.
    MissingAt,
    /// An angle bracket has no partner, or brackets stand inside the token.
    InvalidBrackets,
    /// A character stands where the grammar forbids it: a second `@`.
    InvalidCharacter,
    /// Whitespace stands inside the token, as it does behind a display name.
    Whitespace,
}

impl AddrError {
    /// The reason in words.
    pub open spec fn message_text(self) -> Seq<char> {
        match self {
            AddrError::Empty => "address was empty"@,
            AddrError::MissingAt => "address did not contain '@'"@,
            AddrError::InvalidBrackets => "address contained malformed brackets"@,
            AddrError::InvalidCharacter => "address contained invalid character(s)"@,
            AddrError::Whitespace => "address contained whitespace or a display name"@,
        }
    }

    /// The reason in words, for diagnostics.
    pub fn message(&self) -> (r: String)
        ensures
            r@ == self.message_text(),
    {
        match self {
            AddrError::Empty => "address was empty".to_owned(),
            AddrError::MissingAt => "address did not contain '@'".to_owned(),
            AddrError::InvalidBrackets => "address contained malformed brackets".to_owned(),
            AddrError::InvalidCharacter => "address contained invalid character(s)".to_owned(),
            AddrError::Whitespace => "address contained whitespace or a display name".to_owned(),
        }
    }
}

/// An envelope address: `local@domain`, or the null address, whose parts are
/// both empty.
#[derive(Clone, Debug, PartialEq, Eq)]
pub struct Addr {
    /// What stands before the `@`, in the case it was written in.
    pub local: String,
    /// What stands behind the `@`, with ASCII letters in lower case.
    pub domain: String,
}

/// An address as a pair of character sequences.
pub struct AddrView {
    pub local: Seq<char>,
    pub domain: Seq<char>,
}

impl AddrView {
    /// The null address.
    pub open spec fn null() -> AddrView {
        AddrView { local: Seq::empty(), domain: Seq::empty() }
    }

    /// Whether both parts are empty.
    pub open spec fn is_null(self) -> bool {
        self.local.len() == 0 && self.domain.len() == 0
    }

    /// Both parts are empty or neither is.
    pub open spec fn wf(self) -> bool {
        (self.local.len() == 0) == (self.domain.len() == 0)
    }

    /// `local@domain`.
    pub open spec fn addr_spec(self) -> Seq<char> {
        self.local + seq!['@'] + self.domain
    }

    /// `<local@domain>`.
    pub open spec fn bracketed(self) -> Seq<char> {
        seq!['<'] + self.addr_spec() + seq!['>']
    }

    /// `<>` for the null address, `local@domain` for any other.
    pub open spec fn display(self) -> Seq<char> {
        if self.is_null() {
            null_form()
        } else {
            self.addr_spec()
        }
    }
}

impl View for Addr {
    type V = AddrView;

    open spec fn view(&self) -> AddrView {
        AddrView { local: self.local@, domain: self.domain@ }
    }
}

/// Whether `s` can stand as the local part or as the domain of an address:
/// it is not empty and holds no whitespace, no angle bracket and no `@`.
pub open spec fn is_part(s: Seq<char>) -> bool {
    &&& s.len() > 0
    &&& !has_whitespace(s)
    &&& !s.contains('<')
    &&& !s.contains('>')
    &&& !s.contains('@')
}

/// The null reverse-path as it is written: `<>`.
pub open spec fn null_form() -> Seq<char> {
    seq!['<', '>']
}

/// What a pair of angle brackets encloses in `t`, or `t` itself where it has
/// neither an opening bracket in front nor a closing one at its end; `None`
/// where only one of the two is there.
pub open spec fn strip_brackets(t: Seq<char>) -> Option<Seq<char>> {
    let opened = t.len() > 0 && t.first() == '<';
    let rest = if opened { t.drop_first() } else { t };
    let closed = rest.len() > 0 && rest.last() == '>';
    if opened != closed {
        None
    } else if closed {
        Some(rest.drop_last())
    } else {
        Some(rest)
    }
}

/// The address that `body` spells once trimming and brackets are done with:
/// no whitespace, no angle bracket, and exactly one `@` with something on
/// either side of it. The domain comes out in ASCII lower case.
pub open spec fn parse_body(body: Seq<char>) -> Result<AddrView, AddrError> {
    if has_whitespace(body) {
        Err(AddrError::Whitespace)
    } else if body.contains('<') || body.contains('>') {
        Err(AddrError::InvalidBrackets)
    } else if body.len() == 0 {
        Err(AddrError::Empty)
    } else if !body.contains('@') {
        Err(AddrError::MissingAt)
    } else {
        let at = first_index(body, '@');
        let local = body.subrange(0, at);
        let domain = body.subrange(at + 1, body.len() as int);
        if local.len() == 0 || domain.len() == 0 {
            Err(AddrError::Empty)
        } else if domain.contains('@') {
            Err(AddrError::InvalidCharacter)
        } else {
            Ok(AddrView { local, domain: ascii_lowercase(domain) })
        }
    }
}

/// The address that the text `s` spells, or the reason why it spells none.
pub open spec fn parse(s: Seq<char>) -> Result<AddrView, AddrError> {
    let t = trim(s);
    if t =~= null_form() {
        Ok(AddrView::null())
    } else {
        match strip_brackets(t) {
            None => Err(AddrError::InvalidBrackets),
            Some(body) => parse_body(body),
        }
    }
}

/// What `parse` says of `s`, as a claim about a result of the parser.
pub open spec fn parsed_as(s: Seq<char>, r: Result<Addr, AddrError>) -> bool {
    match r {
        Ok(a) => parse(s) == Ok::<AddrView, AddrError>(a@),
        Err(e) => parse(s) == Err::<AddrView, AddrError>(e),
    }
}

impl Addr {
    /// Parses `s` as `local@domain`, `<local@domain>` or `<>`, with whitespace
    /// allowed around it and nowhere else.
    pub fn parse_envelope(s: &str) -> (r: Result<Addr, AddrError>)
        ensures
            parsed_as(s@, r),
            r is Ok ==> r.unwrap()@.wf(),
    {
        let cs = to_chars(s);
        let (a, b) = trim_bounds(&cs);
        let ghost t = trim(s@);
        if b - a == 2 && cs[a] == '<' && cs[a + 1] == '>' {
            return Ok(Addr { local: String::new(), domain: String::new() });
        }
        let opened = a < b && cs[a] == '<';
        let from: usize = if opened { a + 1 } else { a };
        let closed = from < b && cs[b - 1] == '>';
        if opened != closed {
            return Err(AddrError::InvalidBrackets);
        }
        let to: usize = if closed { b - 1 } else { b };
        let ghost body = cs@.subrange(from as int, to as int);
        assert(strip_brackets(t) == Some(body)) by {
            let rest = if opened { t.drop_first() } else { t };
            assert(rest =~= cs@.subrange(from as int, b as int));
            if closed {
                assert(rest.drop_last() =~= body);
            }
        }
        if any_whitespace(&cs, from, to) {
            return Err(AddrError::Whitespace);
        }
        proof {
            lemma_first_index(body, '<');
            lemma_first_index(body, '>');
            lemma_first_index(body, '@');
        }
        if find_char(&cs, from, to, '<') < to || find_char(&cs, from, to, '>') < to {
            return Err(AddrError::InvalidBrackets);
        }
        if from == to {
            return Err(AddrError::Empty);
        }
        let at = find_char(&cs, from, to, '@');
        if at == to {
            return Err(AddrError::MissingAt);
        }
        if at == from || at + 1 == to {
            return Err(AddrError::Empty);
        }
        let ghost tail = body.subrange(at - from + 1, body.len() as int);
        assert(tail =~= cs@.subrange(at + 1, to as int));
        assert(body.subrange(0, at - from) =~= cs@.subrange(from as int, at as int));
        proof {
            lemma_first_index(tail, '@');
        }
        if find_char(&cs, at + 1, to, '@') < to {
            return Err(AddrError::InvalidCharacter);
        }
        let local = s.substring_char(from, at).to_owned();
        let domain = to_ascii_lowercase(s.substring_char(at + 1, to));
        Ok(Addr { local, domain })
    }

    /// `local@domain`, without brackets; `@` for the null address.
    pub fn to_addr_spec(&self) -> (r: String)
        ensures
            r@ == self@.addr_spec(),
    {
        proof {
            reveal_strlit("@");
        }
        let mut s = String::new();
        s.append(self.local.as_str());
        s.append("@");
        s.append(self.domain.as_str());
        assert(s@ =~= self@.addr_spec());
        s
    }

    /// Whether this is the null address.
    pub fn is_null(&self) -> (r: bool)
        ensures
            r == self@.is_null(),
    {
        self.local.as_str().is_empty() && self.domain.as_str().is_empty()
    }

    /// `<local@domain>`; `<@>` for the null address.
    pub fn to_bracketed(&self) -> (r: String)
        ensures
            r@ == self@.bracketed(),
    {
        proof {
            reveal_strlit("<");
            reveal_strlit(">");
        }
        let a = self.to_addr_spec();
        let mut s = String::new();
        s.append("<");
        s.append(a.as_str());
        s.append(">");
        assert(s@ =~= self@.bracketed());
        s
    }

    /// The address with `domain` in place of its domain. The new domain is
    /// taken as it is: neither checked nor put in lower case.
    pub fn with_domain(&self, domain: String) -> (r: Addr)
        ensures
            r@ == (AddrView { local: self@.local, domain: domain@ }),
    {
        Addr { local: self.local.clone(), domain }
    }

    /// The address as it is shown in logs: `<>` for the null address,
    /// `local@domain` for any other.
    pub fn to_string(&self) -> (r: String)
        ensures
            r@ == self@.display(),
    {
        if self.is_null() {
            proof {
                reveal_strlit("<>");
            }
            let s = "<>".to_owned();
            assert(s@ =~= null_form());
            s
        } else {
            self.to_addr_spec()
        }
    }
}

impl core::str::FromStr for Addr {
    type Err = AddrError;

    /// Parses `s` as `Addr::parse_envelope` does.
    fn from_str(s: &str) -> (r: Result<Addr, AddrError>)
        ensures
            parsed_as(s@, r),
    {
        Addr::parse_envelope(s)
    }
}

} // verus!
