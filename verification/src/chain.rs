//! Walking a forwarding header.
//!
//! The header lists addresses separated by commas, each proxy appending the
//! address it received the request from. The walk starts at the last entry,
//! the hop nearest to this server, and moves toward the first: trust wears
//! off with distance.

use vstd::prelude::*;
use crate::address::Address;
use crate::classifier::{address_is_local, is_local};
use crate::parse::{address_of_text, parse_address_span};
use crate::text::{chars_of, split, split_span, spans_cover, trim, trim_span, Span};

verus! {

/// The address that one entry of the header writes, white space around it
/// set aside.
pub open spec fn token_address(token: Seq<char>) -> Option<Address> {
    address_of_text(trim(token))
}

/// The walk over `tokens` from the last one toward the first, with `best`
/// the address found so far. An entry that writes no address ends the walk
/// with what was found. An entry that writes one becomes what was found; if
/// that address is not local the walk ends with it, else it goes on.
pub open spec fn walk(tokens: Seq<Seq<char>>, best: Option<Address>) -> Option<Address>
    decreases tokens.len(),
{
    if tokens.len() == 0 {
        best
    } else {
        match token_address(tokens.last()) {
            None => best,
            Some(a) => if address_is_local(a) {
                walk(tokens.drop_last(), Some(a))
            } else {
                Some(a)
            },
        }
    }
}

/// The entries of a header.
pub open spec fn chain_tokens(header: Seq<char>) -> Seq<Seq<char>> {
    split(header, ',')
}

/// The address that the walk over a header ends with.
pub open spec fn chain_result(header: Seq<char>) -> Option<Address> {
    walk(chain_tokens(header), None)
}

/// Walks the header from its last entry toward its first and returns the
/// first address that is not local; if every entry read was local, the
/// earliest of them; nothing if the last entry writes no address. No entry
/// before the one that ends the walk is looked at.
pub fn resolve_from_chain(header: &str) -> (r: Option<Address>)
    ensures
        r == chain_result(header@),
{
    let s = chars_of(header);
    let whole = Span { start: 0, end: s.len() };
    assert(whole.of(s@) =~= header@);
    let tokens = split_span(&s, whole, ',');
    let ghost fields = chain_tokens(header@);
    let mut best: Option<Address> = None;
    let mut n: usize = tokens.len();
    assert(fields.take(n as int) =~= fields);
    while n > 0
        invariant
            n <= tokens@.len(),
            spans_cover(s@, tokens@, fields),
            chain_result(header@) == walk(fields.take(n as int), best),
        decreases n,
    {
        let ghost left = fields.take(n as int);
        assert(left.last() == tokens@[n - 1].of(s@));
        assert(left.drop_last() =~= fields.take(n - 1));
        let token = trim_span(&s, tokens[n - 1]);
        match parse_address_span(&s, token) {
            None => {
                return best;
            },
            Some(a) => {
                best = Some(a);
                if !is_local(&a) {
                    return best;
                }
            },
        }
        n -= 1;
    }
    best
}

/// The walk finds nothing exactly when the header's last entry writes no
/// address: once one entry was read, an address is returned.
pub proof fn lemma_chain_absent(header: Seq<char>)
    ensures
        chain_result(header) is None <==> token_address(chain_tokens(header).last()) is None,
{
    let tokens = chain_tokens(header);
    crate::text::lemma_split_fields(header, ',');
    match token_address(tokens.last()) {
        None => {},
        Some(a) => {
            if address_is_local(a) {
                lemma_walk_keeps(tokens.drop_last(), Some(a));
            }
        },
    }
}

/// A walk that starts with an address found ends with one.
pub proof fn lemma_walk_keeps(tokens: Seq<Seq<char>>, best: Option<Address>)
    requires
        best is Some,
    ensures
        walk(tokens, best) is Some,
    decreases tokens.len(),
{
    if tokens.len() > 0 {
        match token_address(tokens.last()) {
            None => {},
            Some(a) => {
                if address_is_local(a) {
                    lemma_walk_keeps(tokens.drop_last(), Some(a));
                }
            },
        }
    }
}

/// Where the walk's result comes from. The entry at the returned index
/// writes the result, and every entry behind it writes a local address. If
/// the result is local itself, no earlier entry could be read: the entry is
/// the header's first, or the one before it writes no address.
pub proof fn lemma_chain_source(header: Seq<char>) -> (k: int)
    requires
        chain_result(header) is Some,
    ensures
        0 <= k < chain_tokens(header).len(),
        token_address(chain_tokens(header)[k]) == chain_result(header),
        forall|j: int|
            k < j < chain_tokens(header).len() ==> {
                &&& token_address(#[trigger] chain_tokens(header)[j]) is Some
                &&& address_is_local(token_address(chain_tokens(header)[j])->0)
            },
        address_is_local(chain_result(header)->0) ==> k == 0 || token_address(
            chain_tokens(header)[k - 1],
        ) is None,
{
    let tokens = chain_tokens(header);
    assert(tokens.take(tokens.len() as int) =~= tokens);
    lemma_walk_source(tokens, tokens.len() as int, None)
}

/// The walk over the first `n` entries, taken up with `best` found at entry
/// `n`, ends at an entry that writes its result; see
/// [`lemma_chain_source`].
proof fn lemma_walk_source(tokens: Seq<Seq<char>>, n: int, best: Option<Address>) -> (k: int)
    requires
        0 <= n <= tokens.len(),
        walk(tokens.take(n), best) is Some,
        best is Some ==> n < tokens.len() && token_address(tokens[n]) == best && address_is_local(
            best->0,
        ),
    ensures
        0 <= k < tokens.len(),
        k <= n,
        token_address(tokens[k]) == walk(tokens.take(n), best),
        forall|j: int|
            k < j < n ==> {
                &&& token_address(#[trigger] tokens[j]) is Some
                &&& address_is_local(token_address(tokens[j])->0)
            },
        k == n ==> best is Some,
        address_is_local(walk(tokens.take(n), best)->0) ==> k == 0 || token_address(
            tokens[k - 1],
        ) is None,
    decreases n,
{
    let left = tokens.take(n);
    if n == 0 {
        n
    } else {
        assert(left.last() == tokens[n - 1]);
        assert(left.drop_last() =~= tokens.take(n - 1));
        match token_address(tokens[n - 1]) {
            None => n,
            Some(a) => {
                if address_is_local(a) {
                    lemma_walk_source(tokens, n - 1, Some(a))
                } else {
                    n - 1
                }
            },
        }
    }
}

} // verus!
