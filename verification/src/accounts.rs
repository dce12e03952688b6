//! Screening the accounts of a fuzzing run: they must be distinct, and every
//! one of them must be a contract address.
use vstd::prelude::*;
use vstd::utf8::{valid_utf8, decode_utf8};
use stellar_strkey::Strkey;
use crate::commands::account_keys;
use crate::table::bytes_equal;

verus! {

/// The kinds of Stellar strkey.
#[derive(Debug, PartialEq, Eq, Structural, Clone, Copy)]
pub enum StrkeyKind {
    PublicKeyEd25519,
    PrivateKeyEd25519,
    PreAuthTx,
    HashX,
    MuxedAccountEd25519,
    SignedPayloadEd25519,
    Contract,
}

/// What stellar-strkey's `Strkey::from_string` makes of a text: the kind of
/// strkey it decodes to, or none where it refuses the text.
pub uninterp spec fn strkey_decoding(text: Seq<char>) -> Option<StrkeyKind>;

/// Calls `std::str::from_utf8`: the bytes as text exactly when they are
/// valid UTF-8, decoded as UTF-8.
#[verifier::external_body]
fn utf8_text(bytes: &[u8]) -> (r: Option<&str>)
    ensures
        r is Some <==> valid_utf8(bytes@),
        r matches Some(t) ==> t@ == decode_utf8(bytes@),
{
    std::str::from_utf8(bytes).ok()
}

/// Calls stellar-strkey's `Strkey::from_string` and keeps the kind of strkey
/// it decoded, or none where it returned an error.
#[verifier::external_body]
fn decode_strkey(text: &str) -> (r: Option<StrkeyKind>)
    ensures
        r == strkey_decoding(text@),
{
    match Strkey::from_string(text) {
        Ok(Strkey::PublicKeyEd25519(_)) => Some(StrkeyKind::PublicKeyEd25519),
        Ok(Strkey::PrivateKeyEd25519(_)) => Some(StrkeyKind::PrivateKeyEd25519),
        Ok(Strkey::PreAuthTx(_)) => Some(StrkeyKind::PreAuthTx),
        Ok(Strkey::HashX(_)) => Some(StrkeyKind::HashX),
        Ok(Strkey::MuxedAccountEd25519(_)) => Some(StrkeyKind::MuxedAccountEd25519),
        Ok(Strkey::SignedPayloadEd25519(_)) => Some(StrkeyKind::SignedPayloadEd25519),
        Ok(Strkey::Contract(_)) => Some(StrkeyKind::Contract),
        Err(_) => None,
    }
}

/// The kind of strkey that an address, given by its strkey bytes, decodes
/// to; none where the bytes are not UTF-8 or not a strkey.
pub open spec fn address_kind(address: Seq<u8>) -> Option<StrkeyKind> {
    if valid_utf8(address) {
        strkey_decoding(decode_utf8(address))
    } else {
        None
    }
}

/// A strkey that decoded to a kind other than a contract.
pub open spec fn is_other_kind(kind: Option<StrkeyKind>) -> bool {
    match kind {
        Some(k) => k != StrkeyKind::Contract,
        None => false,
    }
}

/// Every kind before index `i` is a contract.
pub open spec fn contracts_before(kinds: Seq<Option<StrkeyKind>>, i: int) -> bool {
    forall|j: int| 0 <= j < i ==> #[trigger] kinds[j] == Some(StrkeyKind::Contract)
}

/// The strkey kind of each address, in order.
pub fn address_kinds(addrs: &Vec<Vec<u8>>) -> (r: Vec<Option<StrkeyKind>>)
    ensures
        r@.len() == addrs@.len(),
        forall|i: int| 0 <= i < addrs@.len() ==> #[trigger] r@[i] == address_kind(addrs@[i]@),
{
    let mut r: Vec<Option<StrkeyKind>> = Vec::new();
    let n = addrs.len();
    let mut i: usize = 0;
    while i < n
        invariant
            n == addrs@.len(),
            i <= n,
            r@.len() == i,
            forall|k: int| 0 <= k < i ==> #[trigger] r@[k] == address_kind(addrs@[k]@),
        decreases n - i,
    {
        let kind = match utf8_text(addrs[i].as_slice()) {
            None => None,
            Some(text) => decode_strkey(text),
        };
        r.push(kind);
        i = i + 1;
    }
    r
}

/// Decides, from the strkey kinds of the addresses in order, whether all are
/// contract addresses: `Some(true)` if all are, `Some(false)` at the first
/// that decodes to another kind, and `None` at the first that does not
/// decode, where the screening cannot go on.
pub fn screen_strkey_kinds(kinds: &Vec<Option<StrkeyKind>>) -> (r: Option<bool>)
    ensures
        r == Some(true) <==> contracts_before(kinds@, kinds@.len() as int),
        r is None <==> exists|i: int|
            0 <= i < kinds@.len() && kinds@[i] is None && contracts_before(kinds@, i),
        r == Some(false) <==> exists|i: int|
            0 <= i < kinds@.len() && is_other_kind(#[trigger] kinds@[i]) && contracts_before(kinds@, i),
{
    let n = kinds.len();
    let mut i: usize = 0;
    while i < n
        invariant
            n == kinds@.len(),
            i <= n,
            contracts_before(kinds@, i as int),
        decreases n - i,
    {
        match kinds[i] {
            None => {
                proof {
                    assert forall|j: int|
                        0 <= j < kinds@.len() && is_other_kind(#[trigger] kinds@[j]) implies !contracts_before(kinds@, j) by {
                        if j > i {
                            assert(kinds@[i as int] != Some(StrkeyKind::Contract));
                        }
                    }
                }
                return None;
            },
            Some(StrkeyKind::Contract) => {},
            Some(_) => {
                proof {
                    assert forall|j: int|
                        0 <= j < kinds@.len() && kinds@[j] is None implies !contracts_before(
                        kinds@,
                        j,
                    ) by {
                        if j > i {
                            assert(kinds@[i as int] != Some(StrkeyKind::Contract));
                        }
                    }
                    assert(!contracts_before(kinds@, kinds@.len() as int)) by {
                        assert(kinds@[i as int] != Some(StrkeyKind::Contract));
                    }
                }
                return Some(false);
            },
        }
        i = i + 1;
    }
    Some(true)
}

/// Whether every address, given by its strkey bytes, is a contract address:
/// `Some(false)` at the first that is not, `None` at the first that is not a
/// strkey at all, where the screening cannot go on.
pub fn require_contract_addresses(addrs: &Vec<Vec<u8>>) -> (r: Option<bool>)
    ensures
        ({
            let kinds = addrs@.map_values(|a: Vec<u8>| address_kind(a@));
            &&& r == Some(true) <==> contracts_before(kinds, kinds.len() as int)
            &&& r is None <==> exists|i: int|
                0 <= i < kinds.len() && kinds[i] is None && contracts_before(kinds, i)
            &&& r == Some(false) <==> exists|i: int|
                0 <= i < kinds.len() && is_other_kind(#[trigger] kinds[i]) && contracts_before(kinds, i)
        }),
{
    let kinds = address_kinds(addrs);
    assert(kinds@ =~= addrs@.map_values(|a: Vec<u8>| address_kind(a@)));
    screen_strkey_kinds(&kinds)
}

/// The addresses at indices before `j`, other than `i`, that equal the
/// address at `i`, exist.
pub open spec fn equal_elsewhere_before(keys: Seq<Seq<u8>>, i: int, j: int) -> bool {
    exists|k: int| 0 <= k < j && k != i && #[trigger] keys[k] == keys[i]
}

/// Whether no address occurs twice. For each address, counts the addresses
/// equal to it and fails when that count exceeds one.
pub fn require_unique_addresses(addrs: &Vec<Vec<u8>>) -> (r: bool)
    ensures
        r == account_keys(addrs@).no_duplicates(),
{
    let ghost keys = account_keys(addrs@);
    let n = addrs.len();
    let mut i: usize = 0;
    while i < n
        invariant
            n == addrs@.len(),
            n == keys.len(),
            keys == account_keys(addrs@),
            i <= n,
            forall|a: int, b: int|
                0 <= a < i && 0 <= b < n && a != b ==> #[trigger] keys[a] != #[trigger] keys[b],
        decreases n - i,
    {
        let mut count: usize = 0;
        let mut j: usize = 0;
        while j < n
            invariant
                n == addrs@.len(),
                n == keys.len(),
                keys == account_keys(addrs@),
                i < n,
                j <= n,
                count <= j,
                equal_elsewhere_before(keys, i as int, j as int) ==> count >= 1 + (if j > i {
                    1int
                } else {
                    0
                }),
                !equal_elsewhere_before(keys, i as int, j as int) ==> count == (if j > i {
                    1int
                } else {
                    0
                }),
            decreases n - j,
        {
            let same = bytes_equal(&addrs[j], &addrs[i]);
            assert(keys[j as int] == addrs@[j as int]@);
            assert(keys[i as int] == addrs@[i as int]@);
            if same {
                count = count + 1;
            }
            proof {
                if equal_elsewhere_before(keys, i as int, j as int) {
                    let k = choose|k: int| 0 <= k < j && k != i && #[trigger] keys[k] == keys[i as int];
                    assert(0 <= k < j + 1 && k != i && keys[k] == keys[i as int]);
                }
                if j != i && same {
                    assert(equal_elsewhere_before(keys, i as int, j + 1));
                }
                if !equal_elsewhere_before(keys, i as int, j as int) && !(j != i && same) {
                    assert(!equal_elsewhere_before(keys, i as int, j + 1));
                }
            }
            j = j + 1;
        }
        if count > 1 {
            proof {
                let k = choose|k: int| 0 <= k < n && k != i && #[trigger] keys[k] == keys[i as int];
                assert(!keys.no_duplicates());
            }
            return false;
        }
        proof {
            assert forall|a: int, b: int|
                0 <= a < i + 1 && 0 <= b < n && a != b implies #[trigger] keys[a]
                != #[trigger] keys[b] by {
                if a == i {
                    assert(!(0 <= b < n && b != i && keys[b] == keys[i as int]));
                }
            }
        }
        i = i + 1;
    }
    true
}

/// Whether a fuzzing input is worth running: `Some(false)` for an input with
/// no commands, or whose accounts are not distinct or not all contract
/// addresses; `None` where the run cannot start, because there is no
/// account to make the administrator or an account is not a strkey.
pub fn accept_input(command_count: usize, accounts: &Vec<Vec<u8>>) -> (r: Option<bool>)
    ensures
        command_count == 0 ==> r == Some(false),
        command_count != 0 && accounts@.len() == 0 ==> r is None,
        command_count != 0 && accounts@.len() != 0 && !account_keys(accounts@).no_duplicates()
            ==> r == Some(false),
        command_count != 0 && accounts@.len() != 0 && account_keys(accounts@).no_duplicates()
            ==> r == require_contract_addresses_spec(accounts@),
        r == Some(true) ==> command_count != 0 && accounts@.len() != 0 && account_keys(
            accounts@,
        ).no_duplicates(),
{
    if command_count == 0 {
        return Some(false);
    }
    if accounts.len() == 0 {
        return None;
    }
    if !require_unique_addresses(accounts) {
        return Some(false);
    }
    require_contract_addresses(accounts)
}

/// The screening of a list of strkey kinds: `Some(true)` if all are
/// contracts, `None` if the first that is not a contract does not decode,
/// `Some(false)` otherwise.
pub open spec fn kinds_screening(kinds: Seq<Option<StrkeyKind>>) -> Option<bool> {
    if contracts_before(kinds, kinds.len() as int) {
        Some(true)
    } else if exists|i: int| 0 <= i < kinds.len() && kinds[i] is None && contracts_before(kinds, i) {
        None
    } else {
        Some(false)
    }
}

/// The strkey kinds of a list of addresses.
pub open spec fn kinds_of(addrs: Seq<Vec<u8>>) -> Seq<Option<StrkeyKind>> {
    addrs.map_values(|a: Vec<u8>| address_kind(a@))
}

/// What `require_contract_addresses` returns for these addresses.
pub open spec fn require_contract_addresses_spec(addrs: Seq<Vec<u8>>) -> Option<bool> {
    kinds_screening(kinds_of(addrs))
}

/// Screening the kinds of two lists one after the other: the second list
/// decides where the first is all contracts, the first decides otherwise.
pub proof fn lemma_kinds_screening_concat(k1: Seq<Option<StrkeyKind>>, k2: Seq<Option<StrkeyKind>>)
    ensures
        kinds_screening(k1 + k2) == (match kinds_screening(k1) {
            Some(true) => kinds_screening(k2),
            r => r,
        }),
{
    let k = k1 + k2;
    let n1 = k1.len() as int;
    if contracts_before(k1, n1) {
        assert forall|j: int| 0 <= j <= k2.len() implies contracts_before(k, n1 + j)
            == contracts_before(k2, j) by {
            if contracts_before(k, n1 + j) {
                assert forall|m: int| 0 <= m < j implies #[trigger] k2[m] == Some(
                    StrkeyKind::Contract,
                ) by {
                    assert(k[n1 + m] == k2[m]);
                }
            }
            if contracts_before(k2, j) {
                assert forall|m: int| 0 <= m < n1 + j implies #[trigger] k[m] == Some(
                    StrkeyKind::Contract,
                ) by {
                    if m < n1 {
                        assert(k[m] == k1[m]);
                    } else {
                        assert(k[m] == k2[m - n1]);
                    }
                }
            }
        }
        assert(contracts_before(k, k.len() as int) == contracts_before(k2, k2.len() as int)) by {
            assert(k.len() == n1 + k2.len());
        }
        if exists|i: int| 0 <= i < k.len() && k[i] is None && contracts_before(k, i) {
            let i = choose|i: int| 0 <= i < k.len() && k[i] is None && contracts_before(k, i);
            if i < n1 {
                assert(k[i] == k1[i]);
                assert(k1[i] == Some(StrkeyKind::Contract));
            } else {
                assert(k2[i - n1] is None && contracts_before(k2, i - n1));
            }
        }
        if exists|i: int| 0 <= i < k2.len() && k2[i] is None && contracts_before(k2, i) {
            let i = choose|i: int| 0 <= i < k2.len() && k2[i] is None && contracts_before(k2, i);
            assert(k[n1 + i] == k2[i]);
            assert(k[n1 + i] is None && contracts_before(k, n1 + i));
        }
    } else {
        assert(!contracts_before(k, k.len() as int)) by {
            let m = choose|m: int| 0 <= m < n1 && k1[m] != Some(StrkeyKind::Contract);
            assert(k[m] == k1[m]);
        }
        if exists|i: int| 0 <= i < n1 && k1[i] is None && contracts_before(k1, i) {
            let i = choose|i: int| 0 <= i < n1 && k1[i] is None && contracts_before(k1, i);
            assert(k[i] == k1[i]);
            assert forall|m: int| 0 <= m < i implies #[trigger] k[m] == Some(StrkeyKind::Contract) by {
                assert(k[m] == k1[m]);
            }
            assert(k[i] is None && contracts_before(k, i));
        } else {
            if exists|i: int| 0 <= i < k.len() && k[i] is None && contracts_before(k, i) {
                let i = choose|i: int| 0 <= i < k.len() && k[i] is None && contracts_before(k, i);
                if i < n1 {
                    assert(k[i] == k1[i]);
                    assert forall|m: int| 0 <= m < i implies #[trigger] k1[m] == Some(
                        StrkeyKind::Contract,
                    ) by {
                        assert(k[m] == k1[m]);
                    }
                    assert(k1[i] is None && contracts_before(k1, i));
                } else {
                    assert forall|m: int| 0 <= m < n1 implies #[trigger] k1[m] == Some(
                        StrkeyKind::Contract,
                    ) by {
                        assert(k[m] == k1[m]);
                    }
                }
            }
        }
    }
}

/// Law: checking two lists of addresses one after the other is checking the
/// second only where the first holds only contracts; where both lists are
/// strkeys throughout, the check of the whole is the conjunction.
pub proof fn lemma_contract_check_concat(xs: Seq<Vec<u8>>, ys: Seq<Vec<u8>>)
    ensures
        require_contract_addresses_spec(xs + ys) == (match require_contract_addresses_spec(xs) {
            Some(true) => require_contract_addresses_spec(ys),
            r => r,
        }),
        require_contract_addresses_spec(xs) is Some && require_contract_addresses_spec(ys) is Some
            ==> require_contract_addresses_spec(xs + ys) == Some(
            require_contract_addresses_spec(xs).unwrap() && require_contract_addresses_spec(
                ys,
            ).unwrap(),
        ),
{
    assert(kinds_of(xs + ys) =~= kinds_of(xs) + kinds_of(ys));
    lemma_kinds_screening_concat(kinds_of(xs), kinds_of(ys));
}

/// `zs` lists elements of `xs`, position `i` of `zs` taken from position
/// `p[i]` of `xs`, no position taken twice.
pub open spec fn reindexes<A>(zs: Seq<A>, xs: Seq<A>, p: Seq<int>) -> bool {
    &&& p.len() == zs.len()
    &&& p.no_duplicates()
    &&& forall|i: int| 0 <= i < zs.len() ==> 0 <= #[trigger] p[i] < xs.len() && zs[i] == xs[p[i]]
}

/// Law: a list without repeats keeps none when its elements are reordered or
/// some of them left out.
pub proof fn lemma_no_duplicates_reindexed<A>(xs: Seq<A>, zs: Seq<A>, p: Seq<int>)
    requires
        reindexes(zs, xs, p),
        xs.no_duplicates(),
    ensures
        zs.no_duplicates(),
{
    assert forall|i: int, j: int| 0 <= i < zs.len() && 0 <= j < zs.len() && i != j implies zs[i]
        != zs[j] by {
        assert(p[i] != p[j]);
        assert(zs[i] == xs[p[i]] && zs[j] == xs[p[j]]);
    }
}

/// Law: the uniqueness check gives the same answer for a reordering of the
/// addresses, and holds for any subsequence of addresses where it holds.
pub proof fn lemma_unique_check_reindexed(
    xs: Seq<Vec<u8>>,
    zs: Seq<Vec<u8>>,
    p: Seq<int>,
    q: Seq<int>,
)
    requires
        reindexes(zs, xs, p),
    ensures
        account_keys(xs).no_duplicates() ==> account_keys(zs).no_duplicates(),
        reindexes(xs, zs, q) ==> account_keys(xs).no_duplicates() == account_keys(
            zs,
        ).no_duplicates(),
{
    let kx = account_keys(xs);
    let kz = account_keys(zs);
    assert(reindexes(kz, kx, p)) by {
        assert forall|i: int| 0 <= i < kz.len() implies 0 <= #[trigger] p[i] < kx.len() && kz[i]
            == kx[p[i]] by {
            assert(zs[i] == xs[p[i]]);
        }
    }
    if kx.no_duplicates() {
        lemma_no_duplicates_reindexed(kx, kz, p);
    }
    if reindexes(xs, zs, q) {
        assert(reindexes(kx, kz, q)) by {
            assert forall|i: int| 0 <= i < kx.len() implies 0 <= #[trigger] q[i] < kz.len() && kx[i]
                == kz[q[i]] by {
                assert(xs[i] == zs[q[i]]);
            }
        }
        if kz.no_duplicates() {
            lemma_no_duplicates_reindexed(kz, kx, q);
        }
    }
}

/// Law: where every address is a strkey, the contract check gives the same
/// answer for any reordering of the addresses.
pub proof fn lemma_contract_check_reindexed(
    xs: Seq<Vec<u8>>,
    zs: Seq<Vec<u8>>,
    p: Seq<int>,
    q: Seq<int>,
)
    requires
        reindexes(zs, xs, p),
        reindexes(xs, zs, q),
        forall|i: int| 0 <= i < xs.len() ==> #[trigger] address_kind(xs[i]@) is Some,
    ensures
        require_contract_addresses_spec(zs) == require_contract_addresses_spec(xs),
{
    let kx = kinds_of(xs);
    let kz = kinds_of(zs);
    assert forall|i: int| 0 <= i < kz.len() implies #[trigger] kz[i] is Some by {
        assert(zs[i] == xs[p[i]]);
        assert(address_kind(xs[p[i]]@) is Some);
    }
    assert forall|i: int| 0 <= i < kx.len() implies #[trigger] kx[i] is Some by {
        assert(address_kind(xs[i]@) is Some);
    }
    assert(!(exists|i: int| 0 <= i < kx.len() && kx[i] is None && contracts_before(kx, i)));
    assert(!(exists|i: int| 0 <= i < kz.len() && kz[i] is None && contracts_before(kz, i)));
    if contracts_before(kx, kx.len() as int) {
        assert forall|i: int| 0 <= i < kz.len() implies #[trigger] kz[i] == Some(
            StrkeyKind::Contract,
        ) by {
            assert(zs[i] == xs[p[i]]);
            assert(kx[p[i]] == Some(StrkeyKind::Contract));
        }
    }
    if contracts_before(kz, kz.len() as int) {
        assert forall|i: int| 0 <= i < kx.len() implies #[trigger] kx[i] == Some(
            StrkeyKind::Contract,
        ) by {
            assert(xs[i] == zs[q[i]]);
            assert(kz[q[i]] == Some(StrkeyKind::Contract));
        }
    }
}

} // verus!
