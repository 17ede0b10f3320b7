//! The proof token: a one-time credential derived when a ticket is minted
//! and checked when it is redeemed.
//!
//! A token is the SHA-256 digest, in lower-case hexadecimal, of the text
//! `ticket:event:owner:time`, where the two identifiers and the time are in
//! decimal and the owner is in its text form. A decimal number holds no
//! colon, so the text of a ticket tells its four fields apart as long as the
//! owner's text holds none either.

use crate::encoding::{
    decimal, hex_lower, lemma_decimal_digits, lemma_decimal_injective, push_decimal, to_hex,
};
use crate::identity::{principal_text, Identity};
use sha2::{Digest, Sha256};
use vstd::prelude::*;
use vstd::string::*;
use vstd::utf8::{encode_utf8, encode_utf8_decode_utf8};

verus! {

/// The number of characters of a proof token.
pub const TOKEN_LEN: usize = 64;

/// The SHA-256 digest of `data`.
pub uninterp spec fn sha256(data: Seq<u8>) -> Seq<u8>;

/// Calls `sha2::Sha256::digest`, that is `Digest::digest` on the SHA-256
/// hasher: the digest of `data`, which is named, as 32 bytes.
#[verifier::external_body]
fn sha256_digest(data: &[u8]) -> (digest: Vec<u8>)
    ensures
        digest@ == sha256(data@),
        digest@.len() == 32,
{
    Sha256::digest(data).to_vec()
}

/// The text that is hashed into the token of a ticket: the ticket's
/// identifier, its event's identifier, its owner's text form and the time of
/// issuance, in this order, with a colon between each two.
pub open spec fn token_preimage_spec(
    ticket_id: u64,
    event_id: u64,
    owner_text: Seq<char>,
    issued_at: u64,
) -> Seq<char> {
    decimal(ticket_id as nat) + seq![':'] + decimal(event_id as nat) + seq![':'] + owner_text
        + seq![':'] + decimal(issued_at as nat)
}

/// The token of the ticket `ticket_id` of the event `event_id`, issued to
/// `owner` at `issued_at`.
pub open spec fn proof_token(ticket_id: u64, event_id: u64, owner: Seq<u8>, issued_at: u64) -> Seq<
    char,
> {
    hex_lower(
        sha256(
            encode_utf8(token_preimage_spec(ticket_id, event_id, principal_text(owner), issued_at)),
        ),
    )
}

/// A text with no colon in it, a colon, and more text: read from the left,
/// this splits in one way only.
proof fn lemma_split_at_colon(
    head_a: Seq<char>,
    tail_a: Seq<char>,
    head_b: Seq<char>,
    tail_b: Seq<char>,
)
    requires
        !head_a.contains(':'),
        !head_b.contains(':'),
        head_a + seq![':'] + tail_a == head_b + seq![':'] + tail_b,
    ensures
        head_a == head_b,
        tail_a == tail_b,
{
    let whole_a = head_a + seq![':'] + tail_a;
    let whole_b = head_b + seq![':'] + tail_b;
    assert(whole_a[head_a.len() as int] == ':');
    assert(whole_b[head_b.len() as int] == ':');
    if head_a.len() < head_b.len() {
        assert(whole_b[head_a.len() as int] == head_b[head_a.len() as int]);
        assert(head_b.contains(head_b[head_a.len() as int]));
    } else if head_b.len() < head_a.len() {
        assert(whole_a[head_b.len() as int] == head_a[head_b.len() as int]);
        assert(head_a.contains(head_a[head_b.len() as int]));
    }
    assert(head_a =~= whole_a.subrange(0, head_a.len() as int));
    assert(head_b =~= whole_b.subrange(0, head_b.len() as int));
    assert(tail_a =~= whole_a.subrange(head_a.len() as int + 1, whole_a.len() as int));
    assert(tail_b =~= whole_b.subrange(head_b.len() as int + 1, whole_b.len() as int));
}

/// A decimal rendering holds no colon.
proof fn lemma_decimal_has_no_colon(n: nat)
    ensures
        !decimal(n).contains(':'),
{
    lemma_decimal_digits(n);
}

/// The text that is hashed tells the four fields apart: as long as the
/// owner's text holds no colon, two tickets with the same text have the
/// same identifier, event, owner's text and time of issuance.
pub proof fn law_preimage_unambiguous(
    ticket_a: u64,
    event_a: u64,
    owner_a: Seq<char>,
    issued_a: u64,
    ticket_b: u64,
    event_b: u64,
    owner_b: Seq<char>,
    issued_b: u64,
)
    requires
        !owner_a.contains(':'),
        !owner_b.contains(':'),
        token_preimage_spec(ticket_a, event_a, owner_a, issued_a) == token_preimage_spec(
            ticket_b,
            event_b,
            owner_b,
            issued_b,
        ),
    ensures
        ticket_a == ticket_b,
        event_a == event_b,
        owner_a == owner_b,
        issued_a == issued_b,
{
    let colon = seq![':'];
    let rest2_a = owner_a + colon + decimal(issued_a as nat);
    let rest2_b = owner_b + colon + decimal(issued_b as nat);
    let rest1_a = decimal(event_a as nat) + colon + rest2_a;
    let rest1_b = decimal(event_b as nat) + colon + rest2_b;
    assert(token_preimage_spec(ticket_a, event_a, owner_a, issued_a) =~= decimal(ticket_a as nat)
        + colon + rest1_a);
    assert(token_preimage_spec(ticket_b, event_b, owner_b, issued_b) =~= decimal(ticket_b as nat)
        + colon + rest1_b);
    lemma_decimal_has_no_colon(ticket_a as nat);
    lemma_decimal_has_no_colon(ticket_b as nat);
    lemma_decimal_has_no_colon(event_a as nat);
    lemma_decimal_has_no_colon(event_b as nat);
    lemma_split_at_colon(decimal(ticket_a as nat), rest1_a, decimal(ticket_b as nat), rest1_b);
    lemma_split_at_colon(decimal(event_a as nat), rest2_a, decimal(event_b as nat), rest2_b);
    lemma_split_at_colon(
        owner_a,
        decimal(issued_a as nat),
        owner_b,
        decimal(issued_b as nat),
    );
    lemma_decimal_injective(ticket_a as nat, ticket_b as nat);
    lemma_decimal_injective(event_a as nat, event_b as nat);
    lemma_decimal_injective(issued_a as nat, issued_b as nat);
}

/// Builds the text that is hashed into a token from the four fields, the
/// owner already in text form.
pub fn token_preimage(ticket_id: u64, event_id: u64, owner_text: &str, issued_at: u64) -> (text:
    String)
    ensures
        text@ == token_preimage_spec(ticket_id, event_id, owner_text@, issued_at),
{
    proof {
        reveal_strlit(":");
    }
    let mut text = String::new();
    push_decimal(&mut text, ticket_id);
    text.append(":");
    push_decimal(&mut text, event_id);
    text.append(":");
    text.append(owner_text);
    text.append(":");
    push_decimal(&mut text, issued_at);
    assert(":"@ =~= seq![':']);
    assert(text@ =~= token_preimage_spec(ticket_id, event_id, owner_text@, issued_at));
    text
}

/// Derives the proof token of a ticket. The same four values always give the
/// same token.
pub fn derive_token(ticket_id: u64, event_id: u64, owner: &Identity, issued_at: u64) -> (token:
    String)
    ensures
        token@ == proof_token(ticket_id, event_id, owner@, issued_at),
        token@.len() == TOKEN_LEN,
{
    let owner_text = owner.to_text();
    let preimage = token_preimage(ticket_id, event_id, owner_text.as_str(), issued_at);
    let digest = sha256_digest(preimage.as_str().as_bytes());
    to_hex(digest.as_slice())
}

/// Whether the submitted token is the issued one. The comparison looks at
/// every byte whatever the outcome, so that its duration tells nothing about
/// where two tokens of equal length differ.
pub fn tokens_match(submitted: &str, issued: &str) -> (same: bool)
    ensures
        same == (submitted@ == issued@),
{
    let left = submitted.as_bytes();
    let right = issued.as_bytes();
    proof {
        encode_utf8_decode_utf8(submitted@);
        encode_utf8_decode_utf8(issued@);
    }
    if left.len() != right.len() {
        return false;
    }
    let mut differing: u8 = 0;
    let mut i: usize = 0;
    while i < left.len()
        invariant
            i <= left@.len(),
            left@.len() == right@.len(),
            differing == 0 <==> left@.take(i as int) =~= right@.take(i as int),
        decreases left@.len() - i,
    {
        let l: u8 = left[i];
        let r: u8 = right[i];
        let ghost before = differing;
        differing = differing | (l ^ r);
        proof {
            assert((before | (l ^ r)) == 0 <==> (before == 0 && l == r)) by (bit_vector);
            let lt = left@.take(i + 1);
            let rt = right@.take(i + 1);
            assert(lt.drop_last() =~= left@.take(i as int));
            assert(rt.drop_last() =~= right@.take(i as int));
            assert(lt.last() == l && rt.last() == r);
            if before == 0 && l == r {
                assert(lt =~= rt);
            }
        }
        i += 1;
    }
    proof {
        assert(left@.take(i as int) =~= left@);
        assert(right@.take(i as int) =~= right@);
    }
    differing == 0
}

} // verus!
