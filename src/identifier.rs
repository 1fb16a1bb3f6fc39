//! Enclave identifiers of the form `<fingerprint>-enc<slot in hex>`.
use vstd::prelude::*;

use crate::hex::{hex_of, lemma_hex_of, lemma_parse_hex_of, parse_hex, parse_hex_range, push_hex};
use crate::text::{chars_of, strip_white_space, without_white_space};

verus! {

/// The text that separates the fingerprint from the slot.
pub open spec fn delimiter() -> Seq<char> {
    seq!['-', 'e', 'n', 'c']
}

/// The fingerprint used when the host has no asset tag.
pub open spec fn sentinel_fingerprint() -> Seq<char> {
    seq!['i', '-', '0', '0', '0', '0', '0', '0', '0', '0', '0', '0', '0', '0', '0', '0', '0', '0']
}

/// The error message of an identifier without the delimiter.
pub open spec fn missing_delimiter_message() -> Seq<char> {
    "Invalid enclave_id."@
}

/// The error message of an identifier whose slot is not a 64-bit hexadecimal number.
pub open spec fn invalid_slot_message() -> Seq<char> {
    "Invalid enclave id format"@
}

/// Whether the delimiter starts at position `i` of `s`.
pub open spec fn delimiter_at(s: Seq<char>, i: int) -> bool {
    0 <= i && i + 4 <= s.len() && s.subrange(i, i + 4) == delimiter()
}

/// Whether the delimiter occurs anywhere in `s`.
pub open spec fn contains_delimiter(s: Seq<char>) -> bool {
    exists|i: int| delimiter_at(s, i)
}

/// The first position at or after `from` where the delimiter starts in `s`.
pub open spec fn find_delimiter(s: Seq<char>, from: nat) -> Option<nat>
    decreases s.len() - from,
{
    if from + 4 > s.len() {
        None
    } else if delimiter_at(s, from as int) {
        Some(from)
    } else {
        find_delimiter(s, from + 1)
    }
}

/// The text between the first delimiter of `s` and the next one (or the end),
/// when `s` holds the delimiter at all.
pub open spec fn slot_fragment(s: Seq<char>) -> Option<Seq<char>> {
    match find_delimiter(s, 0) {
        None => None,
        Some(i) => {
            let end = match find_delimiter(s, i + 4) {
                Some(j) => j as int,
                None => s.len() as int,
            };
            Some(s.subrange(i + 4 as int, end))
        },
    }
}

/// The host fingerprint: the asset tag without white space, or the sentinel
/// when there is no asset tag.
pub open spec fn fingerprint(asset_tag: Option<Seq<char>>) -> Seq<char> {
    match asset_tag {
        Some(t) => without_white_space(t),
        None => sentinel_fingerprint(),
    }
}

/// The identifier of slot `slot` on a host with fingerprint `fp`.
pub open spec fn enclave_id_of(fp: Seq<char>, slot: u64) -> Seq<char> {
    fp + delimiter() + hex_of(slot as nat)
}

/// The views of an optional asset tag.
pub open spec fn tag_view(asset_tag: Option<&str>) -> Option<Seq<char>> {
    match asset_tag {
        Some(t) => Some(t@),
        None => None,
    }
}

/// What parsing the identifier `id` yields: its slot, or an error message.
pub open spec fn slot_id_of(id: Seq<char>) -> Result<u64, Seq<char>> {
    match slot_fragment(id) {
        None => Err(missing_delimiter_message()),
        Some(f) => match parse_hex(f) {
            Some(v) => Ok(v),
            None => Err(invalid_slot_message()),
        },
    }
}

/// What `find_delimiter` returns: the first occurrence at or after `from`.
pub proof fn lemma_find_delimiter(s: Seq<char>, from: nat)
    ensures
        match find_delimiter(s, from) {
            Some(k) => from <= k && delimiter_at(s, k as int) && forall|j: int|
                from <= j < k ==> !delimiter_at(s, j),
            None => forall|j: int| from <= j ==> !delimiter_at(s, j),
        },
    decreases s.len() - from,
{
    if from + 4 <= s.len() && !delimiter_at(s, from as int) {
        lemma_find_delimiter(s, from + 1);
    }
}

/// The identifier of a slot on a host whose fingerprint holds no delimiter
/// carries the slot's hexadecimal digits as its slot fragment.
pub proof fn lemma_slot_fragment_of_enclave_id(fp: Seq<char>, slot: u64)
    requires
        !contains_delimiter(fp),
    ensures
        slot_fragment(enclave_id_of(fp, slot)) == Some(hex_of(slot as nat)),
{
    let id = enclave_id_of(fp, slot);
    let h = hex_of(slot as nat);
    let n = fp.len() as int;
    lemma_hex_of(slot as nat);
    assert(id.subrange(n, n + 4) =~= delimiter());
    assert forall|j: int| 0 <= j < n implies !delimiter_at(id, j) by {
        if j + 4 <= n {
            assert(id.subrange(j, j + 4) =~= fp.subrange(j, j + 4));
            assert(!delimiter_at(fp, j));
        } else if delimiter_at(id, j) {
            assert(id.subrange(j, j + 4)[n - j] == id[n]);
        }
    }
    assert forall|j: int| n + 4 <= j implies !delimiter_at(id, j) by {
        if delimiter_at(id, j) {
            assert(id.subrange(j, j + 4)[0] == id[j]);
            assert(id[j] == h[j - n - 4]);
        }
    }
    lemma_find_delimiter(id, 0);
    lemma_find_delimiter(id, (n + 4) as nat);
    assert(delimiter_at(id, n));
    match find_delimiter(id, 0) {
        Some(k) => {
            assert(k == n);
        },
        None => {
            assert(!delimiter_at(id, n));
        },
    }
    assert(find_delimiter(id, (n + 4) as nat) is None);
    assert(id.subrange(n + 4, id.len() as int) =~= h);
}

/// The sentinel fingerprint holds no delimiter.
pub proof fn lemma_sentinel_has_no_delimiter()
    ensures
        !contains_delimiter(sentinel_fingerprint()),
{
    let s = sentinel_fingerprint();
    assert forall|j: int| !delimiter_at(s, j) by {
        if delimiter_at(s, j) {
            assert(s.subrange(j, j + 4)[0] == s[j]);
            assert(s.subrange(j, j + 4)[1] == s[j + 1]);
        }
    }
}

/// On a host without an asset tag, the identifier of slot `slot` is
/// `i-0000000000000000-enc` followed by the slot in lowercase hexadecimal.
pub proof fn lemma_absent_tag_identifier(slot: u64)
    ensures
        enclave_id_of(fingerprint(None), slot) == "i-0000000000000000-enc"@ + hex_of(slot as nat),
{
    reveal_strlit("i-0000000000000000-enc");
    assert(sentinel_fingerprint() + delimiter() =~= "i-0000000000000000-enc"@);
}

/// An asset tag padded with white space, `"  ABC123 \n"`, gives the
/// fingerprint `ABC123`: the identifier of slot `slot` is `ABC123-enc`
/// followed by the slot in lowercase hexadecimal.
pub proof fn lemma_padded_tag_identifier(slot: u64)
    ensures
        enclave_id_of(fingerprint(Some("  ABC123 \n"@)), slot) == "ABC123-enc"@ + hex_of(
            slot as nat,
        ),
{
    reveal_strlit("  ABC123 \n");
    reveal_strlit("ABC123-enc");
    reveal_with_fuel(Seq::filter, 11);
    assert(without_white_space("  ABC123 \n"@) + delimiter() =~= "ABC123-enc"@);
}

/// Parsing the identifier of slot `slot` gives `slot` back, on a host without
/// an asset tag and on one whose fingerprint holds no delimiter.
pub proof fn lemma_round_trip(asset_tag: Option<Seq<char>>, slot: u64)
    requires
        asset_tag is Some ==> !contains_delimiter(without_white_space(asset_tag->0)),
    ensures
        slot_id_of(enclave_id_of(fingerprint(asset_tag), slot)) == Ok::<u64, Seq<char>>(slot),
{
    lemma_sentinel_has_no_delimiter();
    lemma_slot_fragment_of_enclave_id(fingerprint(asset_tag), slot);
    lemma_parse_hex_of(slot);
}

fn delimiter_at_exec(cs: &Vec<char>, i: usize) -> (r: bool)
    requires
        i + 4 <= cs.len(),
    ensures
        r == delimiter_at(cs@, i as int),
{
    let r = cs[i] == '-' && cs[i + 1] == 'e' && cs[i + 2] == 'n' && cs[i + 3] == 'c';
    if r {
        assert(cs@.subrange(i as int, i + 4) =~= delimiter());
    } else {
        assert(cs@.subrange(i as int, i + 4)[0] == cs@[i as int]);
        assert(cs@.subrange(i as int, i + 4)[1] == cs@[i + 1]);
        assert(cs@.subrange(i as int, i + 4)[2] == cs@[i + 2]);
        assert(cs@.subrange(i as int, i + 4)[3] == cs@[i + 3]);
    }
    r
}

fn find_delimiter_exec(cs: &Vec<char>, from: usize) -> (r: Option<usize>)
    ensures
        match r {
            Some(k) => find_delimiter(cs@, from as nat) == Some(k as nat) && k + 4 <= cs.len(),
            None => find_delimiter(cs@, from as nat) is None,
        },
{
    let mut i: usize = from;
    while i <= cs.len() && cs.len() - i >= 4
        invariant
            from <= i,
            find_delimiter(cs@, from as nat) == find_delimiter(cs@, i as nat),
        decreases cs@.len() - i,
    {
        if delimiter_at_exec(cs, i) {
            return Some(i);
        }
        i = i + 1;
    }
    None
}

/// The host fingerprint derived from the asset tag, if there is one: the tag
/// with all white space removed; otherwise the sentinel `i-0000000000000000`.
pub fn host_fingerprint(asset_tag: Option<&str>) -> (r: String)
    ensures
        r@ == fingerprint(tag_view(asset_tag)),
{
    match asset_tag {
        Some(t) => strip_white_space(t),
        None => {
            let r = String::from_str("i-0000000000000000");
            proof {
                reveal_strlit("i-0000000000000000");
                assert(r@ =~= sentinel_fingerprint());
            }
            r
        },
    }
}

/// The identifier of slot `slot_id` on the host whose asset tag is `asset_tag`
/// (`None` where the host has none): the fingerprint, `-enc`, and the slot in
/// lowercase hexadecimal.
pub fn enclave_id_from_asset_tag(asset_tag: Option<&str>, slot_id: u64) -> (r: String)
    ensures
        r@ == enclave_id_of(fingerprint(tag_view(asset_tag)), slot_id),
{
    let mut r = host_fingerprint(asset_tag);
    r.append("-enc");
    proof {
        reveal_strlit("-enc");
        assert("-enc"@ =~= delimiter());
    }
    push_hex(&mut r, slot_id);
    r
}

/// The slot number in the identifier `enclave_id`: the text after the first
/// `-enc` and before the next one, read as a 64-bit hexadecimal number.
pub fn get_slot_id(enclave_id: String) -> (r: Result<u64, String>)
    ensures
        match r {
            Ok(v) => slot_id_of(enclave_id@) == Ok::<u64, Seq<char>>(v),
            Err(e) => slot_id_of(enclave_id@) == Err::<u64, Seq<char>>(e@),
        },
{
    let cs = chars_of(enclave_id.as_str());
    match find_delimiter_exec(&cs, 0) {
        None => Err(String::from_str("Invalid enclave_id.")),
        Some(i) => {
            proof {
                lemma_find_delimiter(cs@, 0);
            }
            let end = match find_delimiter_exec(&cs, i + 4) {
                Some(j) => {
                    proof {
                        lemma_find_delimiter(cs@, (i + 4) as nat);
                    }
                    j
                },
                None => cs.len(),
            };
            match parse_hex_range(&cs, i + 4, end) {
                Some(v) => Ok(v),
                None => Err(String::from_str("Invalid enclave id format")),
            }
        },
    }
}

} // verus!
