//! Textual block selectors and their resolution to a concrete block query.
//!
//! The grammar is `"latest" | "parent" | "safe" | "finalized" | "0x" HEX`.
//! Anything else is a parse error; in particular a bare decimal number is
//! rejected rather than silently reinterpreted.

use vstd::prelude::*;
use vstd::string::StringSliceAdditionalSpecFns;

verus! {

/// A block number (or tag - "latest", "safe", "finalized").
/// This enum is used to specify which block to query when interacting with the blockchain.
#[derive(Clone, Copy, Debug, PartialEq, Eq, Structural, Hash)]
pub enum BlockNumberOrTag {
    /// The most recent block in the canonical chain observed by the client.
    Latest,
    /// The parent of the most recent block in the canonical chain observed by
    /// the client. This is equivalent to `Latest - 1`.
    Parent,
    /// The most recent block considered "safe" by the client.
    Safe,
    /// The most recent finalized block in the chain.
    Finalized,
    /// A specific block number in the canonical chain.
    Number(u64),
}

impl Default for BlockNumberOrTag {
    fn default() -> (r: Self)
        ensures
            r == BlockNumberOrTag::Latest,
    {
        BlockNumberOrTag::Latest
    }
}

/// Why a selector string failed to parse.
#[derive(Clone, Copy, Debug, PartialEq, Eq, Structural)]
pub enum SelectorError {
    /// The string is neither a known tag nor does it start with `0x`.
    MissingHexPrefix,
    /// The string starts with `0x` but contains a non-hex character.
    InvalidDigit,
    /// The string starts with `0x` but has no digits after the prefix.
    EmptyDigits,
    /// The hex number does not fit in 64 bits.
    Overflow,
}

/// The concrete block query handed to an RPC state provider: a tag the
/// provider itself resolves, or an explicit block number.
#[derive(Clone, Copy, Debug, PartialEq, Eq, Structural)]
pub enum RpcBlockId {
    Latest,
    Safe,
    Finalized,
    Number(u64),
}

/// Resolving a selector against the reported chain height can fail.
#[derive(Clone, Copy, Debug, PartialEq, Eq, Structural)]
pub enum ResolveError {
    /// `Parent` was requested at height zero: genesis has no parent.
    InvalidBlock,
}

pub open spec fn latest_bytes() -> Seq<u8> {
    seq![108u8, 97u8, 116u8, 101u8, 115u8, 116u8]
}

pub open spec fn parent_bytes() -> Seq<u8> {
    seq![112u8, 97u8, 114u8, 101u8, 110u8, 116u8]
}

pub open spec fn safe_bytes() -> Seq<u8> {
    seq![115u8, 97u8, 102u8, 101u8]
}

pub open spec fn finalized_bytes() -> Seq<u8> {
    seq![102u8, 105u8, 110u8, 97u8, 108u8, 105u8, 122u8, 101u8, 100u8]
}

/// ASCII hex digit, upper or lower case.
pub open spec fn is_hex_digit(b: u8) -> bool {
    (48 <= b && b <= 57) || (97 <= b && b <= 102) || (65 <= b && b <= 70)
}

/// Numeric value of one ASCII hex digit.
pub open spec fn hex_digit_value(b: u8) -> int {
    if 48 <= b && b <= 57 {
        b - 48
    } else if 97 <= b && b <= 102 {
        b - 87
    } else {
        b - 55
    }
}

/// Value of a big-endian hex digit string, as an unbounded integer.
pub open spec fn hex_value_of(s: Seq<u8>) -> int
    decreases s.len(),
{
    if s.len() == 0 {
        0
    } else {
        hex_value_of(s.drop_last()) * 16 + hex_digit_value(s.last())
    }
}

pub open spec fn all_hex_digits(s: Seq<u8>) -> bool {
    forall|i: int| 0 <= i < s.len() ==> is_hex_digit(#[trigger] s[i])
}

/// The selector grammar, as a total function on byte strings.
pub open spec fn spec_parse_selector(s: Seq<u8>) -> Result<BlockNumberOrTag, SelectorError> {
    if s == latest_bytes() {
        Ok(BlockNumberOrTag::Latest)
    } else if s == parent_bytes() {
        Ok(BlockNumberOrTag::Parent)
    } else if s == safe_bytes() {
        Ok(BlockNumberOrTag::Safe)
    } else if s == finalized_bytes() {
        Ok(BlockNumberOrTag::Finalized)
    } else if s.len() >= 2 && s[0] == 48 && s[1] == 120 {
        let digits = s.skip(2);
        if digits.len() == 0 {
            Err(SelectorError::EmptyDigits)
        } else if !all_hex_digits(digits) {
            Err(SelectorError::InvalidDigit)
        } else if hex_value_of(digits) > u64::MAX {
            Err(SelectorError::Overflow)
        } else {
            Ok(BlockNumberOrTag::Number(hex_value_of(digits) as u64))
        }
    } else {
        Err(SelectorError::MissingHexPrefix)
    }
}

/// Hex digit values never exceed 15.
proof fn lemma_hex_digit_value_bound(b: u8)
    requires
        is_hex_digit(b),
    ensures
        0 <= hex_digit_value(b) < 16,
{
}

/// The value of a hex string never shrinks when more digits are appended.
proof fn lemma_hex_value_prefix_le(s: Seq<u8>, i: int)
    requires
        0 <= i <= s.len(),
        all_hex_digits(s),
    ensures
        hex_value_of(s.take(i)) <= hex_value_of(s),
        hex_value_of(s) >= 0,
    decreases s.len() - i,
{
    if i < s.len() {
        assert(s.take(i + 1).drop_last() =~= s.take(i));
        assert(s.take(i + 1).last() == s[i]);
        lemma_hex_value_prefix_le(s, i + 1);
        assert(forall|j: int| 0 <= j < i ==> s.take(i)[j] == s[j]);
        lemma_hex_value_nonneg(s.take(i));
        lemma_hex_digit_value_bound(s[i]);
    } else {
        assert(s.take(i) =~= s);
        lemma_hex_value_nonneg(s);
    }
}

proof fn lemma_hex_value_nonneg(s: Seq<u8>)
    requires
        all_hex_digits(s),
    ensures
        hex_value_of(s) >= 0,
    decreases s.len(),
{
    if s.len() > 0 {
        assert(forall|j: int| 0 <= j < s.len() - 1 ==> s.drop_last()[j] == s[j]);
        lemma_hex_value_nonneg(s.drop_last());
        lemma_hex_digit_value_bound(s.last());
    }
}

/// Parses the digits after the `0x` prefix.
fn parse_hex_digits(b: &[u8], start: usize) -> (r: Result<u64, SelectorError>)
    requires
        start <= b@.len(),
    ensures
        ({
            let digits = b@.skip(start as int);
            match r {
                Ok(v) => all_hex_digits(digits) && hex_value_of(digits) == v && digits.len() > 0,
                Err(SelectorError::EmptyDigits) => digits.len() == 0,
                Err(SelectorError::InvalidDigit) => digits.len() > 0 && !all_hex_digits(digits),
                Err(SelectorError::Overflow) => all_hex_digits(digits) && hex_value_of(digits)
                    > u64::MAX,
                _ => false,
            }
        }),
{
    let ghost digits = b@.skip(start as int);
    let n: usize = b.len();
    if start == n {
        return Err(SelectorError::EmptyDigits);
    }
    let mut acc: u64 = 0;
    let mut i: usize = start;
    while i < n
        invariant
            start <= i <= n,
            n == b@.len(),
            digits == b@.skip(start as int),
            all_hex_digits(digits.take(i - start)),
            acc == hex_value_of(digits.take(i - start)),
        decreases n - i,
    {
        let c = b[i];
        let d: u64;
        if 48 <= c && c <= 57 {
            d = (c - 48) as u64;
        } else if 97 <= c && c <= 102 {
            d = (c - 87) as u64;
        } else if 65 <= c && c <= 70 {
            d = (c - 55) as u64;
        } else {
            assert(digits[i - start] == c);
            return Err(SelectorError::InvalidDigit);
        }
        proof {
            assert(digits[i - start] == c);
            assert(digits.take(i - start + 1).drop_last() =~= digits.take(i - start));
            assert(digits.take(i - start + 1).last() == c);
        }
        if acc >= 0x1000000000000000 {
            let ghost k = i - start + 1;
            proof {
                lemma_hex_digit_value_bound(c);
                assert(all_hex_digits(digits.take(k))) by {
                    assert(forall|j: int| 0 <= j < k - 1 ==> digits.take(k)[j] == digits.take(
                        k - 1,
                    )[j]);
                }
                assert(hex_value_of(digits.take(k)) > u64::MAX);
                assert(forall|m: int| 0 <= m < k ==> is_hex_digit(#[trigger] digits[m])) by {
                    assert(forall|m: int| 0 <= m < k ==> digits.take(k)[m] == digits[m]);
                }
            }
            // the number already exceeds 64 bits; the remaining characters
            // only decide between an overflow and an invalid-digit error
            let mut j: usize = i + 1;
            while j < n
                invariant
                    i < j <= n,
                    n == b@.len(),
                    start < i,
                    digits == b@.skip(start as int),
                    forall|m: int| 0 <= m < j - start ==> is_hex_digit(#[trigger] digits[m]),
                decreases n - j,
            {
                let c2 = b[j];
                if !((48 <= c2 && c2 <= 57) || (97 <= c2 && c2 <= 102) || (65 <= c2 && c2
                    <= 70)) {
                    assert(digits[j - start] == c2);
                    return Err(SelectorError::InvalidDigit);
                }
                j += 1;
            }
            proof {
                lemma_hex_value_prefix_le(digits, k);
            }
            return Err(SelectorError::Overflow);
        }
        proof {
            lemma_hex_digit_value_bound(c);
        }
        acc = acc * 16 + d;
        i += 1;
    }
    proof {
        assert(digits.take(n - start) =~= digits);
    }
    Ok(acc)
}

impl BlockNumberOrTag {
    /// Parses a selector string: `"latest" | "parent" | "safe" | "finalized"
    /// | "0x" HEX`. Decimal or unprefixed numbers are rejected, never
    /// reinterpreted.
    pub fn parse(s: &str) -> (r: Result<BlockNumberOrTag, SelectorError>)
        ensures
            r == spec_parse_selector(s.spec_bytes()),
    {
        let b = s.as_bytes();
        let ghost bs = s.spec_bytes();
        if b.len() == 6 && b[0] == 108 && b[1] == 97 && b[2] == 116 && b[3] == 101 && b[4] == 115
            && b[5] == 116 {
            assert(bs =~= latest_bytes());
            return Ok(BlockNumberOrTag::Latest);
        }
        if b.len() == 6 && b[0] == 112 && b[1] == 97 && b[2] == 114 && b[3] == 101 && b[4] == 110
            && b[5] == 116 {
            assert(bs =~= parent_bytes());
            return Ok(BlockNumberOrTag::Parent);
        }
        if b.len() == 4 && b[0] == 115 && b[1] == 97 && b[2] == 102 && b[3] == 101 {
            assert(bs =~= safe_bytes());
            return Ok(BlockNumberOrTag::Safe);
        }
        if b.len() == 9 && b[0] == 102 && b[1] == 105 && b[2] == 110 && b[3] == 97 && b[4] == 108
            && b[5] == 105 && b[6] == 122 && b[7] == 101 && b[8] == 100 {
            assert(bs =~= finalized_bytes());
            return Ok(BlockNumberOrTag::Finalized);
        }
        proof {
            assert(bs != latest_bytes());
            assert(bs != parent_bytes());
            assert(bs != safe_bytes());
            assert(bs != finalized_bytes());
        }
        if b.len() >= 2 && b[0] == 48 && b[1] == 120 {
            match parse_hex_digits(b, 2) {
                Ok(v) => Ok(BlockNumberOrTag::Number(v)),
                Err(e) => Err(e),
            }
        } else {
            Err(SelectorError::MissingHexPrefix)
        }
    }

    /// Resolves the selector against the provider's reported chain height
    /// into the concrete query sent to the provider. `Parent` becomes
    /// `Number(latest - 1)` and fails on a chain of height zero: genesis has
    /// no parent.
    pub fn into_rpc_type(self, latest: u64) -> (r: Result<RpcBlockId, ResolveError>)
        ensures
            r == spec_resolve(self, latest),
            self == BlockNumberOrTag::Parent && latest == 0 <==> r == Err::<
                RpcBlockId,
                ResolveError,
            >(ResolveError::InvalidBlock),
    {
        match self {
            BlockNumberOrTag::Latest => Ok(RpcBlockId::Latest),
            BlockNumberOrTag::Parent => {
                if latest == 0 {
                    Err(ResolveError::InvalidBlock)
                } else {
                    Ok(RpcBlockId::Number((latest - 1) as u64))
                }
            },
            BlockNumberOrTag::Safe => Ok(RpcBlockId::Safe),
            BlockNumberOrTag::Finalized => Ok(RpcBlockId::Finalized),
            BlockNumberOrTag::Number(n) => Ok(RpcBlockId::Number(n)),
        }
    }

    /// Renders the selector as the ASCII text that [`BlockNumberOrTag::parse`]
    /// accepts; numbers come out as minimal lowercase hex with a `0x` prefix.
    pub fn display_bytes(&self) -> (r: Vec<u8>)
        ensures
            r@ == spec_display_selector(*self),
    {
        match self {
            BlockNumberOrTag::Latest => {
                let mut v: Vec<u8> = Vec::new();
                v.push(108);
                v.push(97);
                v.push(116);
                v.push(101);
                v.push(115);
                v.push(116);
                assert(v@ =~= latest_bytes());
                v
            },
            BlockNumberOrTag::Parent => {
                let mut v: Vec<u8> = Vec::new();
                v.push(112);
                v.push(97);
                v.push(114);
                v.push(101);
                v.push(110);
                v.push(116);
                assert(v@ =~= parent_bytes());
                v
            },
            BlockNumberOrTag::Safe => {
                let mut v: Vec<u8> = Vec::new();
                v.push(115);
                v.push(97);
                v.push(102);
                v.push(101);
                assert(v@ =~= safe_bytes());
                v
            },
            BlockNumberOrTag::Finalized => {
                let mut v: Vec<u8> = Vec::new();
                v.push(102);
                v.push(105);
                v.push(110);
                v.push(97);
                v.push(108);
                v.push(105);
                v.push(122);
                v.push(101);
                v.push(100);
                assert(v@ =~= finalized_bytes());
                v
            },
            BlockNumberOrTag::Number(n) => {
                let mut v: Vec<u8> = Vec::new();
                v.push(48);
                v.push(120);
                let digits = hex_bytes(*n);
                let mut i: usize = 0;
                while i < digits.len()
                    invariant
                        i <= digits@.len(),
                        v@ == seq![48u8, 120u8] + digits@.take(i as int),
                        digits@ == spec_hex_bytes(*n as int),
                    decreases digits@.len() - i,
                {
                    let d = digits[i];
                    v.push(d);
                    proof {
                        assert(digits@.take(i + 1).drop_last() =~= digits@.take(i as int));
                        assert(v@ =~= seq![48u8, 120u8] + digits@.take(i + 1));
                    }
                    i += 1;
                }
                proof {
                    assert(digits@.take(digits@.len() as int) =~= digits@);
                }
                v
            },
        }
    }
}

impl core::str::FromStr for BlockNumberOrTag {
    type Err = SelectorError;

    /// Parses per the selector grammar; see [`BlockNumberOrTag::parse`].
    fn from_str(s: &str) -> Result<BlockNumberOrTag, SelectorError> {
        BlockNumberOrTag::parse(s)
    }
}

/// What [`BlockNumberOrTag::into_rpc_type`] returns, as a function.
pub open spec fn spec_resolve(b: BlockNumberOrTag, latest: u64) -> Result<
    RpcBlockId,
    ResolveError,
> {
    match b {
        BlockNumberOrTag::Latest => Ok(RpcBlockId::Latest),
        BlockNumberOrTag::Parent => if latest == 0 {
            Err(ResolveError::InvalidBlock)
        } else {
            Ok(RpcBlockId::Number((latest - 1) as u64))
        },
        BlockNumberOrTag::Safe => Ok(RpcBlockId::Safe),
        BlockNumberOrTag::Finalized => Ok(RpcBlockId::Finalized),
        BlockNumberOrTag::Number(n) => Ok(RpcBlockId::Number(n)),
    }
}

/// Minimal lowercase hex rendering of `n`, most significant digit first;
/// zero renders as a single `0`.
pub open spec fn spec_hex_bytes(n: int) -> Seq<u8>
    decreases n,
{
    if n < 0 {
        Seq::empty()
    } else if n < 16 {
        seq![spec_hex_digit_byte(n)]
    } else {
        spec_hex_bytes(n / 16) + seq![spec_hex_digit_byte(n % 16)]
    }
}

/// The lowercase ASCII byte for a digit value below 16.
pub open spec fn spec_hex_digit_byte(d: int) -> u8 {
    if d < 10 {
        (48 + d) as u8
    } else {
        (87 + d) as u8
    }
}

/// The ASCII text of a selector: the tag word, or `0x` plus minimal hex.
pub open spec fn spec_display_selector(b: BlockNumberOrTag) -> Seq<u8> {
    match b {
        BlockNumberOrTag::Latest => latest_bytes(),
        BlockNumberOrTag::Parent => parent_bytes(),
        BlockNumberOrTag::Safe => safe_bytes(),
        BlockNumberOrTag::Finalized => finalized_bytes(),
        BlockNumberOrTag::Number(n) => seq![48u8, 120u8] + spec_hex_bytes(n as int),
    }
}

/// Resolution is total and pins exactly one query for every selector, with
/// a single exception: `Parent` at height zero, which is the invalid-block
/// error and never a block.
pub proof fn lemma_resolution_total(b: BlockNumberOrTag, latest: u64)
    ensures
        (b == BlockNumberOrTag::Parent && latest == 0) <==> spec_resolve(b, latest) is Err,
        spec_resolve(b, latest) is Err ==> spec_resolve(b, latest) == Err::<
            RpcBlockId,
            ResolveError,
        >(ResolveError::InvalidBlock),
{
}

/// Every digit the renderer emits is a lowercase hex digit.
proof fn lemma_hex_bytes_digits(n: int)
    requires
        n >= 0,
    ensures
        spec_hex_bytes(n).len() >= 1,
        all_hex_digits(spec_hex_bytes(n)),
    decreases n,
{
    if n < 16 {
        assert(spec_hex_bytes(n) == seq![spec_hex_digit_byte(n)]);
        assert(is_hex_digit(spec_hex_digit_byte(n)));
        assert(forall|i: int|
            0 <= i < spec_hex_bytes(n).len() ==> is_hex_digit(#[trigger] spec_hex_bytes(n)[i]));
    } else {
        lemma_hex_bytes_digits(n / 16);
        let s = spec_hex_bytes(n / 16);
        let d = seq![spec_hex_digit_byte(n % 16)];
        assert(is_hex_digit(spec_hex_digit_byte(n % 16)));
        assert(forall|i: int|
            0 <= i < (s + d).len() ==> is_hex_digit(#[trigger] (s + d)[i]));
    }
}

/// The renderer and the digit-string value are inverses.
proof fn lemma_hex_bytes_value(n: int)
    requires
        n >= 0,
    ensures
        hex_value_of(spec_hex_bytes(n)) == n,
    decreases n,
{
    if n < 16 {
        assert(spec_hex_bytes(n) == seq![spec_hex_digit_byte(n)]);
        assert(seq![spec_hex_digit_byte(n)].drop_last() =~= Seq::<u8>::empty());
        assert(seq![spec_hex_digit_byte(n)].last() == spec_hex_digit_byte(n));
        assert(hex_value_of(Seq::<u8>::empty()) == 0);
        assert(hex_digit_value(spec_hex_digit_byte(n)) == n);
        assert(hex_value_of(seq![spec_hex_digit_byte(n)]) == 0 * 16 + n);
    } else {
        lemma_hex_bytes_value(n / 16);
        let s = spec_hex_bytes(n / 16);
        let d = seq![spec_hex_digit_byte(n % 16)];
        assert((s + d).drop_last() =~= s);
        assert((s + d).last() == spec_hex_digit_byte(n % 16));
        assert(hex_digit_value(spec_hex_digit_byte(n % 16)) == n % 16);
        assert(hex_value_of(s + d) == hex_value_of(s) * 16 + (n % 16));
        assert(hex_value_of(s) * 16 + (n % 16) == (n / 16) * 16 + (n % 16));
        assert((n / 16) * 16 + (n % 16) == n) by (nonlinear_arith)
            requires
                n >= 16,
        ;
    }
}

/// Parsing inverts rendering: the text of any selector parses back to that
/// selector and to nothing else.
pub proof fn lemma_parse_display_roundtrip(b: BlockNumberOrTag)
    ensures
        spec_parse_selector(spec_display_selector(b)) == Ok::<BlockNumberOrTag, SelectorError>(b),
{
    let s = spec_display_selector(b);
    match b {
        BlockNumberOrTag::Latest => {
        },
        BlockNumberOrTag::Parent => {
            assert(s[0] == 112 && latest_bytes()[0] == 108);
            assert(s != latest_bytes());
        },
        BlockNumberOrTag::Safe => {
            assert(s.len() == 4 && latest_bytes().len() == 6 && parent_bytes().len() == 6);
            assert(s != latest_bytes() && s != parent_bytes());
        },
        BlockNumberOrTag::Finalized => {
            assert(s.len() == 9);
            assert(s != latest_bytes() && s != parent_bytes() && s != safe_bytes());
        },
        BlockNumberOrTag::Number(n) => {
            lemma_hex_bytes_digits(n as int);
            lemma_hex_bytes_value(n as int);
            let digits = spec_hex_bytes(n as int);
            assert(s[0] == 48 && s[1] == 120);
            assert(latest_bytes()[0] == 108 && parent_bytes()[0] == 112 && safe_bytes()[0] == 115
                && finalized_bytes()[0] == 102);
            assert(s != latest_bytes() && s != parent_bytes() && s != safe_bytes() && s
                != finalized_bytes());
            assert(s.skip(2) =~= digits);
            assert(hex_value_of(digits) == n as int <= u64::MAX);
        },
    }
}

/// Renders `n` as minimal lowercase hex digits.
fn hex_bytes(n: u64) -> (r: Vec<u8>)
    ensures
        r@ == spec_hex_bytes(n as int),
    decreases n,
{
    if n < 16 {
        let mut v: Vec<u8> = Vec::new();
        let d: u64 = n;
        if d < 10 {
            v.push((48 + d) as u8);
        } else {
            v.push((87 + d) as u8);
        }
        assert(v@ =~= seq![spec_hex_digit_byte(n as int)]);
        v
    } else {
        let mut v = hex_bytes(n / 16);
        let d: u64 = n % 16;
        if d < 10 {
            v.push((48 + d) as u8);
        } else {
            v.push((87 + d) as u8);
        }
        assert(v@ =~= spec_hex_bytes(n as int / 16) + seq![spec_hex_digit_byte(n as int % 16)]);
        v
    }
}

} // verus!
