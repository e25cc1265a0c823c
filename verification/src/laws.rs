//! What holds of the parser and of the forms an address is written in.

use vstd::prelude::*;
use crate::addr::{is_part, null_form, parse, parse_body, strip_brackets, AddrError, AddrView};
use crate::chars::{ascii_lower, is_whitespace};
use crate::text::{
    ascii_lowercase, first_index, lemma_first_index, lemma_first_index_at,
    lemma_trim_end_at, lemma_trim_start_at, trim, trim_end, trim_start,
};

verus! {

/// Lower case is reached in one step: the ASCII lower-case form of a
/// character is its own ASCII lower-case form, and it is whitespace, an angle
/// bracket or `@` only where the character itself is.
pub proof fn lemma_ascii_lower(c: char)
    ensures
        ascii_lower(ascii_lower(c)) == ascii_lower(c),
        is_whitespace(ascii_lower(c)) == is_whitespace(c),
        ascii_lower(c) == '<' <==> c == '<',
        ascii_lower(c) == '>' <==> c == '>',
        ascii_lower(c) == '@' <==> c == '@',
{
}

/// Putting a text in ASCII lower case twice gives what doing it once gives.
pub proof fn lemma_lowercase_idempotent(s: Seq<char>)
    ensures
        ascii_lowercase(ascii_lowercase(s)) == ascii_lowercase(s),
{
    assert forall|i: int| 0 <= i < s.len() implies ascii_lower(ascii_lower(s[i])) == ascii_lower(
        s[i],
    ) by {
        lemma_ascii_lower(s[i]);
    }
    assert(ascii_lowercase(ascii_lowercase(s)) =~= ascii_lowercase(s));
}

/// A text that can stand as a part of an address still can once it is in
/// ASCII lower case.
pub proof fn lemma_lowercase_is_part(s: Seq<char>)
    requires
        is_part(s),
    ensures
        is_part(ascii_lowercase(s)),
{
    let low = ascii_lowercase(s);
    assert forall|i: int| 0 <= i < low.len() implies !is_whitespace(#[trigger] low[i]) && low[i]
        != '<' && low[i] != '>' && low[i] != '@' by {
        lemma_ascii_lower(s[i]);
        assert(!is_whitespace(s[i]));
        assert(s.contains(s[i]));
    }
}

/// Two parts with `@` between them are read back as those parts, the domain
/// in ASCII lower case.
pub proof fn lemma_parse_body_of_parts(local: Seq<char>, domain: Seq<char>)
    requires
        is_part(local),
        is_part(domain),
    ensures
        parse_body(local + seq!['@'] + domain) == Ok::<AddrView, AddrError>(
            AddrView { local, domain: ascii_lowercase(domain) },
        ),
{
    let body = local + seq!['@'] + domain;
    let n = local.len() as int;
    assert forall|i: int| 0 <= i < body.len() implies !is_whitespace(#[trigger] body[i]) && body[i]
        != '<' && body[i] != '>' by {
        if i < n {
            assert(body[i] == local[i]);
            assert(!is_whitespace(local[i]));
            assert(local.contains(local[i]));
        } else if i > n {
            assert(body[i] == domain[i - n - 1]);
            assert(!is_whitespace(domain[i - n - 1]));
            assert(domain.contains(domain[i - n - 1]));
        }
    }
    assert(body[n] == '@');
    assert(body.contains('@'));
    assert forall|i: int| 0 <= i < n implies #[trigger] body[i] != '@' by {
        assert(body[i] == local[i]);
        assert(local.contains(local[i]));
    }
    lemma_first_index_at(body, '@', n);
    assert(body.subrange(0, n) =~= local);
    assert(body.subrange(n + 1, body.len() as int) =~= domain);
}

/// Whether every character of `s` is whitespace.
pub open spec fn is_padding(s: Seq<char>) -> bool {
    forall|i: int| 0 <= i < s.len() ==> is_whitespace(#[trigger] s[i])
}

/// Whitespace in front of a text is trimmed away with the text's own.
pub proof fn lemma_trim_start_padded(pre: Seq<char>, s: Seq<char>)
    requires
        is_padding(pre),
    ensures
        trim_start(pre + s) == trim_start(s),
    decreases pre.len(),
{
    if pre.len() == 0 {
        assert(pre + s =~= s);
    } else {
        assert((pre + s).first() == pre[0]);
        assert((pre + s).drop_first() =~= pre.drop_first() + s);
        assert forall|i: int| 0 <= i < pre.drop_first().len() implies is_whitespace(
            #[trigger] pre.drop_first()[i],
        ) by {
            assert(pre.drop_first()[i] == pre[i + 1]);
        }
        lemma_trim_start_padded(pre.drop_first(), s);
    }
}

/// Whitespace behind a text is trimmed away with the text's own.
pub proof fn lemma_trim_end_padded(s: Seq<char>, post: Seq<char>)
    requires
        is_padding(post),
    ensures
        trim_end(s + post) == trim_end(s),
    decreases post.len(),
{
    if post.len() == 0 {
        assert(s + post =~= s);
    } else {
        assert((s + post).last() == post.last());
        assert((s + post).drop_last() =~= s + post.drop_last());
        assert forall|i: int| 0 <= i < post.drop_last().len() implies is_whitespace(
            #[trigger] post.drop_last()[i],
        ) by {
            assert(post.drop_last()[i] == post[i]);
        }
        lemma_trim_end_padded(s, post.drop_last());
    }
}

/// Trimming the front of a text with whitespace behind it leaves nothing
/// where the text is all whitespace, and else the trimmed text with that
/// whitespace still behind it.
pub proof fn lemma_trim_start_before_padding(s: Seq<char>, post: Seq<char>)
    requires
        is_padding(post),
    ensures
        trim_start(s + post) == if trim_start(s).len() == 0 {
            Seq::<char>::empty()
        } else {
            trim_start(s) + post
        },
    decreases s.len(),
{
    if s.len() == 0 {
        assert(s + post =~= post);
        lemma_trim_start_at(post, post.len() as int);
        assert(post.subrange(post.len() as int, post.len() as int) =~= Seq::<char>::empty());
    } else if is_whitespace(s.first()) {
        assert((s + post).first() == s.first());
        assert((s + post).drop_first() =~= s.drop_first() + post);
        lemma_trim_start_before_padding(s.drop_first(), post);
    } else {
        assert((s + post).first() == s.first());
    }
}

/// Whitespace around a text does not count: the text is read as it is read
/// without it. So the null address is read from `<>` however it is padded.
pub proof fn lemma_parse_ignores_padding(pre: Seq<char>, s: Seq<char>, post: Seq<char>)
    requires
        is_padding(pre),
        is_padding(post),
    ensures
        parse(pre + s + post) == parse(s),
        trim(s) == null_form() ==> parse(pre + s + post) == Ok::<AddrView, AddrError>(
            AddrView::null(),
        ),
{
    assert(pre + s + post =~= pre + (s + post));
    lemma_trim_start_padded(pre, s + post);
    lemma_trim_start_before_padding(s, post);
    if trim_start(s).len() != 0 {
        lemma_trim_end_padded(trim_start(s), post);
    }
    assert(trim(pre + s + post) == trim(s));
}

/// Whatever the parser accepts has both parts empty or neither.
pub proof fn lemma_parsed_wf(s: Seq<char>)
    requires
        parse(s) is Ok,
    ensures
        parse(s).unwrap().wf(),
{
}

/// The parts of an address that the parser accepts, the null address aside,
/// can each stand as a part, and the domain is in ASCII lower case.
pub proof fn lemma_parsed_parts(s: Seq<char>)
    requires
        parse(s) is Ok,
        !parse(s).unwrap().is_null(),
    ensures
        is_part(parse(s).unwrap().local),
        is_part(parse(s).unwrap().domain),
        ascii_lowercase(parse(s).unwrap().domain) == parse(s).unwrap().domain,
{
    let body = strip_brackets(trim(s)).unwrap();
    let at = first_index(body, '@');
    let local = body.subrange(0, at);
    let domain = body.subrange(at + 1, body.len() as int);
    lemma_first_index(body, '@');
    assert forall|i: int| 0 <= i < local.len() implies !is_whitespace(#[trigger] local[i])
        && local[i] != '<' && local[i] != '>' && local[i] != '@' by {
        assert(local[i] == body[i]);
        assert(body.contains(body[i]));
    }
    assert forall|i: int| 0 <= i < domain.len() implies !is_whitespace(#[trigger] domain[i])
        && domain[i] != '<' && domain[i] != '>' by {
        assert(domain[i] == body[at + 1 + i]);
        assert(body.contains(body[at + 1 + i]));
    }
    assert(is_part(domain));
    lemma_lowercase_is_part(domain);
    lemma_lowercase_idempotent(domain);
}

/// Lower case is a fixed point of the parser: the domain of an address that
/// it accepts is its own ASCII lower-case form.
pub proof fn lemma_domain_normalized(s: Seq<char>)
    requires
        parse(s) is Ok,
    ensures
        ascii_lowercase(parse(s).unwrap().domain) == parse(s).unwrap().domain,
{
    if parse(s).unwrap().is_null() {
        assert(ascii_lowercase(parse(s).unwrap().domain) =~= parse(s).unwrap().domain);
    } else {
        lemma_parsed_parts(s);
    }
}

/// Written bare, two parts are read back as themselves, the domain in ASCII
/// lower case.
pub proof fn lemma_parse_bare(local: Seq<char>, domain: Seq<char>)
    requires
        is_part(local),
        is_part(domain),
    ensures
        parse(local + seq!['@'] + domain) == Ok::<AddrView, AddrError>(
            AddrView { local, domain: ascii_lowercase(domain) },
        ),
{
    let x = local + seq!['@'] + domain;
    lemma_part_ends(local);
    lemma_part_ends(domain);
    assert(x.first() == local.first());
    assert(x.last() == domain.last());
    lemma_trim_tight(x);
    lemma_parse_body_of_parts(local, domain);
    assert(!(x =~= null_form()));
    assert(strip_brackets(x) == Some(x));
}

/// A text that neither starts nor ends in whitespace is its own trimmed
/// form.
pub proof fn lemma_trim_tight(s: Seq<char>)
    requires
        s.len() > 0,
        !is_whitespace(s.first()),
        !is_whitespace(s.last()),
    ensures
        trim(s) == s,
{
    lemma_trim_start_at(s, 0);
    assert(s.subrange(0, s.len() as int) =~= s);
    lemma_trim_end_at(s, s.len() as int);
}

/// Where a part starts and ends: with a character that is neither
/// whitespace nor an angle bracket.
pub proof fn lemma_part_ends(s: Seq<char>)
    requires
        is_part(s),
    ensures
        !is_whitespace(s.first()),
        !is_whitespace(s.last()),
        s.first() != '<',
        s.last() != '>',
{
    assert(!is_whitespace(s[0]));
    assert(!is_whitespace(s[s.len() - 1]));
    assert(s.contains(s[0]));
    assert(s.contains(s[s.len() - 1]));
}

/// Two parts in a pair of angle brackets are read as they are read bare.
pub proof fn lemma_parse_bracketed(local: Seq<char>, domain: Seq<char>)
    requires
        is_part(local),
        is_part(domain),
    ensures
        parse(seq!['<'] + (local + seq!['@'] + domain) + seq!['>']) == Ok::<AddrView, AddrError>(
            AddrView { local, domain: ascii_lowercase(domain) },
        ),
{
    let x = local + seq!['@'] + domain;
    let both = seq!['<'] + x + seq!['>'];
    lemma_parse_body_of_parts(local, domain);
    assert(both.first() == '<');
    assert(both.last() == '>');
    lemma_trim_tight(both);
    assert(both.len() != null_form().len());
    assert(both.drop_first().drop_last() =~= x);
    assert(both.drop_first().last() == '>');
    assert(strip_brackets(both) == Some(x));
}

/// Two parts behind an opening angle bracket that nothing closes are
/// refused for their brackets.
pub proof fn lemma_parse_unclosed(local: Seq<char>, domain: Seq<char>)
    requires
        is_part(local),
        is_part(domain),
    ensures
        parse(seq!['<'] + (local + seq!['@'] + domain)) == Err::<AddrView, AddrError>(
            AddrError::InvalidBrackets,
        ),
{
    let x = local + seq!['@'] + domain;
    let opening = seq!['<'] + x;
    lemma_part_ends(domain);
    assert(x.last() == domain.last());
    assert(opening.first() == '<');
    assert(opening.last() == x.last());
    lemma_trim_tight(opening);
    assert(opening.len() != null_form().len());
    assert(opening.drop_first() =~= x);
    assert(strip_brackets(opening) is None);
}

/// Two parts in front of a closing angle bracket that nothing opened are
/// refused for their brackets.
pub proof fn lemma_parse_unopened(local: Seq<char>, domain: Seq<char>)
    requires
        is_part(local),
        is_part(domain),
    ensures
        parse(local + seq!['@'] + domain + seq!['>']) == Err::<AddrView, AddrError>(
            AddrError::InvalidBrackets,
        ),
{
    let x = local + seq!['@'] + domain;
    let closing = x + seq!['>'];
    lemma_part_ends(local);
    assert(x.first() == local.first());
    assert(closing.first() == x.first());
    assert(closing.last() == '>');
    lemma_trim_tight(closing);
    assert(closing.len() != null_form().len());
    assert(strip_brackets(closing) is None);
}

/// Brackets go in pairs. Two parts written in a pair of angle brackets are
/// read as they are read bare; with only the opening bracket, or only the
/// closing one, they are refused for their brackets.
pub proof fn lemma_bracket_symmetry(local: Seq<char>, domain: Seq<char>)
    requires
        is_part(local),
        is_part(domain),
    ensures
        parse(seq!['<'] + (local + seq!['@'] + domain) + seq!['>']) == parse(
            local + seq!['@'] + domain,
        ),
        parse(local + seq!['@'] + domain) == Ok::<AddrView, AddrError>(
            AddrView { local, domain: ascii_lowercase(domain) },
        ),
        parse(seq!['<'] + (local + seq!['@'] + domain)) == Err::<AddrView, AddrError>(
            AddrError::InvalidBrackets,
        ),
        parse(local + seq!['@'] + domain + seq!['>']) == Err::<AddrView, AddrError>(
            AddrError::InvalidBrackets,
        ),
{
    lemma_parse_bare(local, domain);
    lemma_parse_bracketed(local, domain);
    lemma_parse_unclosed(local, domain);
    lemma_parse_unopened(local, domain);
}

/// Writing and reading again changes nothing: an address that the parser
/// accepts, the null address aside, is what the parser reads from its
/// `local@domain` form.
pub proof fn lemma_round_trip(s: Seq<char>)
    requires
        parse(s) is Ok,
        !parse(s).unwrap().is_null(),
    ensures
        parse(parse(s).unwrap().addr_spec()) == parse(s),
{
    let a = parse(s).unwrap();
    lemma_parsed_parts(s);
    lemma_parse_bare(a.local, a.domain);
}

} // verus!
