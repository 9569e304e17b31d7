use vstd::prelude::*;
use vstd::arithmetic::power2::{pow2, lemma2_to64, lemma_pow2_pos, lemma_pow2_adds, lemma_pow2_strictly_increases};
use crate::geometry::{BlockPos, fits_i32, pos_fits, pos_is};
use crate::clipboard::{index_of, in_box, lemma_index_bounds, lemma_index_injective};
use vstd::bits::{lemma_u8_shr_is_div, lemma_u32_shr_is_div, lemma_u32_shl_is_mul, lemma_u32_pow2_no_overflow};

verus! {

/// Bit `i` of a byte string, counting from the least significant bit of byte 0.
pub open spec fn bit_at(bytes: Seq<u8>, i: int) -> nat {
    ((bytes[i / 8] as nat) / pow2((i % 8) as nat)) % 2
}

/// The number formed by `count` bits starting at bit `start`, the first bit
/// being the least significant.
pub open spec fn bits_value(bytes: Seq<u8>, start: int, count: nat) -> nat
    decreases count,
{
    if count == 0 {
        0
    } else {
        bits_value(bytes, start, (count - 1) as nat) + bit_at(bytes, start + count - 1) * pow2((count - 1) as nat)
    }
}

pub proof fn lemma_bits_value_bound(bytes: Seq<u8>, start: int, count: nat)
    ensures
        bits_value(bytes, start, count) < pow2(count),
    decreases count,
{
    if count == 0 {
        lemma2_to64();
    } else {
        let c = (count - 1) as nat;
        lemma_bits_value_bound(bytes, start, c);
        lemma_pow2_adds(c, 1);
        lemma2_to64();
        assert(bit_at(bytes, start + count - 1) <= 1);
        assert(bit_at(bytes, start + count - 1) * pow2(c) <= pow2(c)) by (nonlinear_arith)
            requires bit_at(bytes, start + count - 1) <= 1;
    }
}

/// Reads `bit_count` bits starting at bit `start_bit`, least significant bit first.
pub fn read_bits_lsb_first(bytes: &[u8], start_bit: usize, bit_count: usize) -> (value: u32)
    requires
        bit_count <= 32,
        start_bit + bit_count <= bytes@.len() * 8,
        start_bit + bit_count <= usize::MAX,
    ensures
        value == bits_value(bytes@, start_bit as int, bit_count as nat),
{
    let mut value: u32 = 0;
    let mut bit_offset: usize = 0;
    proof {
        lemma2_to64();
    }
    while bit_offset < bit_count
        invariant
            bit_count <= 32,
            start_bit + bit_count <= bytes@.len() * 8,
            start_bit + bit_count <= usize::MAX,
            bit_offset <= bit_count,
            value == bits_value(bytes@, start_bit as int, bit_offset as nat),
            value < pow2(bit_offset as nat),
        decreases bit_count - bit_offset,
    {
        let bit_index = start_bit + bit_offset;
        let byte_index = bit_index / 8;
        let bit_in_byte = bit_index % 8;
        let byte = bytes[byte_index];
        let bit = (byte >> bit_in_byte as u8) & 1;
        proof {
            lemma_u8_shr_is_div(byte, bit_in_byte as u8);
            let shifted = byte >> bit_in_byte as u8;
            assert(shifted & 1 == shifted % 2) by (bit_vector);
            assert(bit as nat == bit_at(bytes@, bit_index as int));
            lemma_u32_pow2_no_overflow(bit_offset as nat);
            lemma_u32_shl_is_mul(1, bit_offset as u32);
            lemma_pow2_adds(bit_offset as nat, 1);
            lemma2_to64();
        }
        let shifted_bit = (bit as u32) << (bit_offset as u32);
        let ghost old_value = value;
        proof {
            let s = bit_offset as u32;
            assert(bit == 0 || bit == 1);
            if bit == 0 {
                assert((0u32 << s) == 0u32) by (bit_vector);
                assert(value | 0u32 == value) by (bit_vector);
            } else {
                assert(value < (1u32 << s));
                assert(value | (1u32 << s) == value + (1u32 << s)) by (bit_vector)
                    requires s < 32, value < (1u32 << s);
            }
        }
        value = value | shifted_bit;
        proof {
            assert(value == old_value + bit_at(bytes@, start_bit + bit_offset) * pow2(bit_offset as nat));
            assert(bits_value(bytes@, start_bit as int, (bit_offset + 1) as nat)
                == bits_value(bytes@, start_bit as int, bit_offset as nat) + bit_at(bytes@, start_bit + bit_offset) * pow2(bit_offset as nat));
            assert(value < pow2((bit_offset + 1) as nat)) by (nonlinear_arith)
                requires value == old_value + bit_at(bytes@, start_bit + bit_offset) * pow2(bit_offset as nat),
                    old_value < pow2(bit_offset as nat),
                    bit_at(bytes@, start_bit + bit_offset) <= 1,
                    pow2((bit_offset + 1) as nat) == pow2(bit_offset as nat) * pow2(1),
                    pow2(1) == 2;
        }
        bit_offset = bit_offset + 1;
    }
    value
}


/// Why a binary weight file cannot be read as weights.
#[derive(Clone, Copy, Debug, PartialEq, Eq, Structural)]
pub enum WeightFileError {
    /// Weights must have at least one bit.
    ZeroWeightBits,
    /// Weights wider than 32 bits are not supported.
    WeightBitsTooLarge,
    /// The file's bits are not a whole number of weights.
    PartialWeight { weight_bits: usize, total_bits: usize },
}

/// Checks the weight width before a weight file is read: at least one bit
/// and at most 32.
pub fn check_weight_bits(weight_bits: usize) -> (r: Result<(), WeightFileError>)
    ensures
        weight_bits == 0 ==> r == Err::<(), WeightFileError>(WeightFileError::ZeroWeightBits),
        weight_bits > 32 ==> r == Err::<(), WeightFileError>(WeightFileError::WeightBitsTooLarge),
        1 <= weight_bits <= 32 ==> r is Ok,
{
    if weight_bits == 0 {
        return Err(WeightFileError::ZeroWeightBits);
    }
    if weight_bits > 32 {
        return Err(WeightFileError::WeightBitsTooLarge);
    }
    Ok(())
}

/// How many 4-bit layers a weight of `weight_bits` bits takes: one layer per
/// started group of four bits.
pub open spec fn layer_count(weight_bits: int) -> int {
    (weight_bits + 3) / 4
}

/// The 4-bit group number `layer` of `raw`, counting from the least significant.
pub open spec fn nibble(raw: nat, layer: int) -> nat {
    (raw / pow2((4 * layer) as nat)) % 16
}

/// The layer values of the weight of `weight_bits` bits that starts at bit `start`.
pub open spec fn weight_layers(bytes: Seq<u8>, start: int, weight_bits: nat) -> Seq<u8> {
    Seq::new(layer_count(weight_bits as int) as nat, |l: int| nibble(bits_value(bytes, start, weight_bits), l) as u8)
}

/// `weights` holds, in order, the layer values of every weight of
/// `weight_bits` bits in `bytes`.
pub open spec fn weights_decoded(weights: Seq<Seq<u8>>, bytes: Seq<u8>, weight_bits: nat) -> bool {
    &&& weight_bits > 0
    &&& weights.len() == (bytes.len() as int * 8) / (weight_bits as int)
    &&& forall|i: int| 0 <= i < weights.len() ==> #[trigger] weights[i] == weight_layers(bytes, i * weight_bits, weight_bits)
}

pub open spec fn vecs_view(v: Seq<Vec<u8>>) -> Seq<Seq<u8>> {
    Seq::new(v.len(), |i: int| v[i]@)
}

/// Splits the contents of a binary weight file into weights of `weight_bits`
/// bits (least significant bit first, weight after weight) and each weight
/// into its 4-bit layer values, lowest layer first.
pub fn parse_rom_weights(bytes: &[u8], weight_bits: usize) -> (r: Result<Vec<Vec<u8>>, WeightFileError>)
    requires
        bytes@.len() * 8 <= usize::MAX,
    ensures
        weight_bits == 0 ==> r == Err::<Vec<Vec<u8>>, WeightFileError>(WeightFileError::ZeroWeightBits),
        weight_bits > 32 ==> r == Err::<Vec<Vec<u8>>, WeightFileError>(WeightFileError::WeightBitsTooLarge),
        1 <= weight_bits <= 32 && (bytes@.len() as int * 8) % (weight_bits as int) != 0 ==>
            r == Err::<Vec<Vec<u8>>, WeightFileError>(WeightFileError::PartialWeight {
                weight_bits,
                total_bits: (bytes@.len() * 8) as usize,
            }),
        1 <= weight_bits <= 32 && (bytes@.len() as int * 8) % (weight_bits as int) == 0 ==>
            r is Ok && weights_decoded(vecs_view(r->Ok_0@), bytes@, weight_bits as nat),
{
    match check_weight_bits(weight_bits) {
        Err(e) => {
            return Err(e);
        },
        Ok(()) => {},
    }
    if bytes.len() == 0 {
        let empty: Vec<Vec<u8>> = Vec::new();
        proof {
            assert(vecs_view(empty@) =~= Seq::<Seq<u8>>::empty());
            assert(0int % (weight_bits as int) == 0 && 0int / (weight_bits as int) == 0) by (nonlinear_arith)
                requires weight_bits > 0;
        }
        return Ok(empty);
    }
    let total_bits = bytes.len() * 8;
    if total_bits % weight_bits != 0 {
        return Err(WeightFileError::PartialWeight { weight_bits, total_bits });
    }
    let weight_count = total_bits / weight_bits;
    let vertical_stacks = (weight_bits + 3) / 4;
    let ghost wb = weight_bits as nat;
    let mut weights: Vec<Vec<u8>> = Vec::new();
    let mut weight_index: usize = 0;
    while weight_index < weight_count
        invariant
            1 <= weight_bits <= 32,
            wb == weight_bits,
            total_bits == bytes@.len() * 8,
            total_bits <= usize::MAX,
            total_bits % weight_bits == 0,
            weight_count == total_bits / weight_bits,
            vertical_stacks == layer_count(weight_bits as int),
            weight_index <= weight_count,
            weights@.len() == weight_index,
            forall|i: int| 0 <= i < weight_index ==> #[trigger] weights@[i]@ == weight_layers(bytes@, i * wb, wb),
        decreases weight_count - weight_index,
    {
        proof {
            assert((weight_index + 1) * weight_bits <= total_bits) by (nonlinear_arith)
                requires weight_index < weight_count, weight_count == total_bits / weight_bits,
                    total_bits % weight_bits == 0, weight_bits > 0;
            assert(weight_index * weight_bits + weight_bits == (weight_index + 1) * weight_bits) by (nonlinear_arith);
        }
        let start_bit = weight_index * weight_bits;
        let raw_weight = read_bits_lsb_first(bytes, start_bit, weight_bits);
        let mut barrel_values: Vec<u8> = Vec::new();
        let mut layer: usize = 0;
        while layer < vertical_stacks
            invariant
                1 <= weight_bits <= 32,
                vertical_stacks == layer_count(weight_bits as int),
                raw_weight == bits_value(bytes@, start_bit as int, weight_bits as nat),
                layer <= vertical_stacks,
                barrel_values@.len() == layer,
                forall|l: int| 0 <= l < layer ==> #[trigger] barrel_values@[l] == nibble(raw_weight as nat, l) as u8,
            decreases vertical_stacks - layer,
        {
            let shift = (layer * 4) as u32;
            proof {
                lemma_u32_shr_is_div(raw_weight, shift);
                let shifted = raw_weight >> shift;
                assert(shifted & 0xF == shifted % 16) by (bit_vector);
            }
            let signal = ((raw_weight >> shift) & 0xF) as u8;
            barrel_values.push(signal);
            layer = layer + 1;
        }
        proof {
            assert(barrel_values@ =~= weight_layers(bytes@, weight_index * wb, wb));
        }
        weights.push(barrel_values);
        weight_index = weight_index + 1;
    }
    proof {
        let v = vecs_view(weights@);
        assert forall|i: int| 0 <= i < v.len() implies #[trigger] v[i] == weight_layers(bytes@, i * wb, wb) by {
            assert(weights@[i]@ == weight_layers(bytes@, i * wb, wb));
        }
    }
    Ok(weights)
}


/// The number whose base-16 digits, lowest first, are `digits`.
pub open spec fn digits_value(digits: Seq<u8>) -> nat
    decreases digits.len(),
{
    if digits.len() == 0 {
        0
    } else {
        digits[0] as nat + 16 * digits_value(digits.drop_first())
    }
}

pub open spec fn nibbles(raw: nat, n: nat) -> Seq<u8> {
    Seq::new(n, |l: int| nibble(raw, l) as u8)
}

pub proof fn lemma_nibbles_recompose(raw: nat, n: nat)
    requires
        raw < pow2(4 * n),
    ensures
        digits_value(nibbles(raw, n)) == raw,
    decreases n,
{
    lemma2_to64();
    if n == 0 {
    } else {
        let m = (n - 1) as nat;
        let q = raw / 16;
        lemma_pow2_adds(4 * m, 4);
        assert(4 * m + 4 == 4 * n);
        assert(q < pow2(4 * m)) by (nonlinear_arith)
            requires q == raw / 16, raw < pow2(4 * m) * 16;
        lemma_nibbles_recompose(q, m);
        let s = nibbles(raw, n);
        assert forall|l: int| 0 <= l < m implies #[trigger] s.drop_first()[l] == nibbles(q, m)[l] by {
            lemma_pow2_pos(4 * (l as nat));
            lemma_pow2_adds(4 * (l as nat), 4);
            assert(4 * (l + 1) == 4 * (l as nat) + 4);
            vstd::arithmetic::div_mod::lemma_div_denominator(raw as int, 16, pow2(4 * (l as nat)) as int);
            assert(16 * pow2(4 * (l as nat)) == pow2(4 * (l as nat)) * 16) by (nonlinear_arith);
        }
        assert(s.drop_first() =~= nibbles(q, m));
        assert(pow2(0) == 1);
        assert(((4 * 0int) as nat) == 0nat);
        assert(raw as int / 1 == raw as int);
        assert(nibble(raw, 0) == raw % 16);
        assert(raw == raw % 16 + 16 * q) by (nonlinear_arith) requires q == raw / 16;
    }
}

/// A weight's layer values, read as base-16 digits lowest first, give back
/// the weight's bits: splitting a weight into layers loses nothing.
pub proof fn law_layers_encode_weight(bytes: Seq<u8>, start: int, weight_bits: nat)
    ensures
        digits_value(weight_layers(bytes, start, weight_bits)) == bits_value(bytes, start, weight_bits),
{
    let raw = bits_value(bytes, start, weight_bits);
    let n = layer_count(weight_bits as int) as nat;
    lemma_bits_value_bound(bytes, start, weight_bits);
    if weight_bits < 4 * n {
        lemma_pow2_strictly_increases(weight_bits, 4 * n);
    }
    lemma_nibbles_recompose(raw, n);
    assert(weight_layers(bytes, start, weight_bits) =~= nibbles(raw, n));
}


/// Whatever weights a weight file decodes to (as `parse_rom_weights` gives
/// them) hold the whole file: there are `8 * bytes.len() / weight_bits` of
/// them, none exactly when the file is empty; each has `(weight_bits + 3) / 4`
/// layer values of at most 15; and the layers of weight `i`, read as base-16
/// digits lowest first, give back the `weight_bits` bits of the file that
/// start at bit `i * weight_bits`.
pub proof fn law_decoded_weights_give_back_the_file(weights: Seq<Seq<u8>>, bytes: Seq<u8>, weight_bits: nat)
    requires
        weights_decoded(weights, bytes, weight_bits),
        (bytes.len() as int * 8) % (weight_bits as int) == 0,
    ensures
        weights.len() == (bytes.len() as int * 8) / (weight_bits as int),
        weights.len() == 0 <==> bytes.len() == 0,
        forall|i: int| 0 <= i < weights.len() ==> (#[trigger] weights[i]).len() == (weight_bits + 3) / 4,
        forall|i: int, l: int| 0 <= i < weights.len() && 0 <= l < weights[i].len() ==> #[trigger] weights[i][l] <= 15,
        forall|i: int| 0 <= i < weights.len() ==>
            digits_value(#[trigger] weights[i]) == bits_value(bytes, i * weight_bits, weight_bits),
{
    let total = bytes.len() as int * 8;
    let wb = weight_bits as int;
    if bytes.len() > 0 {
        vstd::arithmetic::div_mod::lemma_fundamental_div_mod(total, wb);
        assert(total / wb >= 1) by (nonlinear_arith)
            requires total == wb * (total / wb) + total % wb, total % wb == 0, total >= 8, wb > 0;
    } else {
        assert(total / wb == 0);
    }
    assert forall|i: int, l: int| 0 <= i < weights.len() && 0 <= l < weights[i].len() implies #[trigger] weights[i][l] <= 15 by {
        let raw = bits_value(bytes, i * weight_bits, weight_bits);
        let d = pow2((4 * l) as nat);
        lemma_pow2_pos((4 * l) as nat);
        vstd::arithmetic::div_mod::lemma_mod_bound((raw / d) as int, 16);
    }
    assert forall|i: int| 0 <= i < weights.len() implies
        digits_value(#[trigger] weights[i]) == bits_value(bytes, i * weight_bits, weight_bits) by {
        law_layers_encode_weight(bytes, i * weight_bits, weight_bits);
    }
}

/// Why a ROM build request is refused.
#[derive(Clone, Copy, Debug, PartialEq, Eq, Structural)]
pub enum RomPlanError {
    ZeroWeightBits,
    WeightBitsTooLarge,
    ZeroBuildDepth,
    BuildDepthNotMultipleOf4,
    /// The weight file name could leave the weights directory.
    InvalidFileName,
    /// The weight file's contents are not whole weights.
    WeightFile(WeightFileError),
    EmptyWeights,
    /// One ROM tile stores four addresses, so the weight count must be a multiple of 4.
    WeightCountNotMultipleOf4 { count: usize },
    /// The ROM tiles do not fill whole rows of the requested depth.
    DepthMismatch { romtile_count: usize, z_count: usize },
}

pub open spec fn has_char(s: Seq<char>, c: char) -> bool {
    exists|i: int| 0 <= i < s.len() && s[i] == c
}

pub open spec fn has_dot_dot(s: Seq<char>) -> bool {
    exists|i: int| 0 <= i < s.len() - 1 && #[trigger] s[i] == '.' && s[i + 1] == '.'
}

/// A weight file name that stays inside the weights directory: no `..`, no `/` and no backslash.
pub open spec fn safe_file_name(s: Seq<char>) -> bool {
    !has_dot_dot(s) && !has_char(s, '/') && !has_char(s, '\\')
}

/// The first reason, in the order they are checked, why a ROM build request
/// is refused before its weight file is read; `None` when there is none.
pub open spec fn request_error(weight_bits: int, build_depth: int, file_name: Seq<char>) -> Option<RomPlanError> {
    if weight_bits == 0 {
        Some(RomPlanError::ZeroWeightBits)
    } else if weight_bits > 32 {
        Some(RomPlanError::WeightBitsTooLarge)
    } else if build_depth == 0 {
        Some(RomPlanError::ZeroBuildDepth)
    } else if build_depth % 4 != 0 {
        Some(RomPlanError::BuildDepthNotMultipleOf4)
    } else if !safe_file_name(file_name) {
        Some(RomPlanError::InvalidFileName)
    } else {
        None
    }
}

/// Whether a weight file name stays inside the weights directory.
pub fn is_safe_file_name(file_name: &str) -> (ok: bool)
    ensures
        ok == safe_file_name(file_name@),
{
    let n = file_name.unicode_len();
    let mut i: usize = 0;
    while i < n
        invariant
            n == file_name@.len(),
            i <= n,
            forall|j: int| 0 <= j < i ==> file_name@[j] != '/' && file_name@[j] != '\\',
            forall|j: int| 0 <= j < i && j < n - 1 ==> !(#[trigger] file_name@[j] == '.' && file_name@[j + 1] == '.'),
        decreases n - i,
    {
        let c = file_name.get_char(i);
        if c == '/' || c == '\\' {
            return false;
        }
        if c == '.' && i + 1 < n {
            let d = file_name.get_char(i + 1);
            if d == '.' {
                return false;
            }
        }
        i = i + 1;
    }
    true
}

/// Checks a ROM build request before its weight file is read.
pub fn check_rom_request(weight_bits: usize, build_depth: usize, file_name: &str) -> (r: Result<(), RomPlanError>)
    ensures
        r is Err <==> request_error(weight_bits as int, build_depth as int, file_name@) is Some,
        r matches Err(e) ==> request_error(weight_bits as int, build_depth as int, file_name@) == Some(e),
{
    if weight_bits == 0 {
        return Err(RomPlanError::ZeroWeightBits);
    }
    if weight_bits > 32 {
        return Err(RomPlanError::WeightBitsTooLarge);
    }
    if build_depth == 0 {
        return Err(RomPlanError::ZeroBuildDepth);
    }
    if build_depth % 4 != 0 {
        return Err(RomPlanError::BuildDepthNotMultipleOf4);
    }
    if !is_safe_file_name(file_name) {
        return Err(RomPlanError::InvalidFileName);
    }
    Ok(())
}

/// The weights of a ROM and how its tiles are laid out: `x_count` tiles
/// along +X, `z_count` along -Z, `vertical_stacks` layers of 4 bits upward.
pub struct RomTilePlan {
    pub weights: Vec<Vec<u8>>,
    pub address_count: usize,
    pub vertical_stacks: usize,
    pub x_count: usize,
    pub z_count: usize,
}

impl RomTilePlan {
    pub open spec fn wf(&self) -> bool {
        &&& 1 <= self.vertical_stacks <= 8
        &&& self.address_count == self.weights@.len()
        &&& 1 <= self.x_count
        &&& 1 <= self.z_count
        &&& self.address_count == 4 * self.x_count * self.z_count
        &&& forall|a: int| 0 <= a < self.weights@.len() ==> (#[trigger] self.weights@[a])@.len() == self.vertical_stacks
        &&& forall|a: int, l: int| 0 <= a < self.weights@.len() && 0 <= l < self.vertical_stacks ==>
            #[trigger] self.weights@[a]@[l] <= 15
    }
}

/// Plans a ROM from a checked request and the contents of its weight file.
/// Refuses, in this order: an unchecked request (as `check_rom_request`
/// does), a file that is not whole weights, an empty file, a weight count that
/// is not a multiple of 4, and tile rows that do not fill the build depth.
/// Otherwise the plan holds the decoded weights, one tile per four weights,
/// `build_depth / 2` tiles deep and as many wide as needed.
pub fn plan_rom_tiles(weight_bits: usize, build_depth: usize, file_name: &str, bytes: &[u8]) -> (r: Result<RomTilePlan, RomPlanError>)
    requires
        bytes@.len() * 8 <= usize::MAX,
    ensures
        ({
            let wb = weight_bits as int;
            let total = bytes@.len() as int * 8;
            let count = total / wb;
            let z_count = build_depth as int / 2;
            if request_error(wb, build_depth as int, file_name@) is Some {
                r == Err::<RomTilePlan, RomPlanError>(request_error(wb, build_depth as int, file_name@)->Some_0)
            } else if total % wb != 0 {
                r == Err::<RomTilePlan, RomPlanError>(RomPlanError::WeightFile(WeightFileError::PartialWeight {
                    weight_bits,
                    total_bits: total as usize,
                }))
            } else if count == 0 {
                r == Err::<RomTilePlan, RomPlanError>(RomPlanError::EmptyWeights)
            } else if count % 4 != 0 {
                r == Err::<RomTilePlan, RomPlanError>(RomPlanError::WeightCountNotMultipleOf4 { count: count as usize })
            } else if (count / 4) % z_count != 0 {
                r == Err::<RomTilePlan, RomPlanError>(RomPlanError::DepthMismatch {
                    romtile_count: (count / 4) as usize,
                    z_count: z_count as usize,
                })
            } else {
                &&& r is Ok
                &&& r->Ok_0.wf()
                &&& weights_decoded(vecs_view(r->Ok_0.weights@), bytes@, weight_bits as nat)
                &&& r->Ok_0.address_count == count
                &&& r->Ok_0.vertical_stacks == layer_count(wb)
                &&& r->Ok_0.z_count == z_count
                &&& r->Ok_0.x_count == (count / 4) / z_count
            }
        }),
{
    match check_rom_request(weight_bits, build_depth, file_name) {
        Err(e) => {
            return Err(e);
        },
        Ok(()) => {},
    }
    let vertical_stacks = (weight_bits + 3) / 4;
    let z_count = build_depth / 2;
    let weights = match parse_rom_weights(bytes, weight_bits) {
        Ok(w) => w,
        Err(e) => {
            return Err(RomPlanError::WeightFile(e));
        },
    };
    let address_count = weights.len();
    if address_count == 0 {
        return Err(RomPlanError::EmptyWeights);
    }
    if address_count % 4 != 0 {
        return Err(RomPlanError::WeightCountNotMultipleOf4 { count: address_count });
    }
    let romtile_count = address_count / 4;
    if romtile_count % z_count != 0 {
        return Err(RomPlanError::DepthMismatch { romtile_count, z_count });
    }
    let x_count = romtile_count / z_count;
    let plan = RomTilePlan { weights, address_count, vertical_stacks, x_count, z_count };
    proof {
        let ghost wb = weight_bits as nat;
        assert(address_count == 4 * x_count * z_count) by (nonlinear_arith)
            requires address_count % 4 == 0, romtile_count == address_count / 4,
                romtile_count % z_count == 0, x_count == romtile_count / z_count, z_count > 0;
        assert(x_count >= 1) by (nonlinear_arith)
            requires address_count == 4 * x_count * z_count, address_count > 0, z_count > 0;
        let v = vecs_view(plan.weights@);
        assert forall|a: int| 0 <= a < plan.weights@.len() implies (#[trigger] plan.weights@[a])@.len() == plan.vertical_stacks by {
            assert(v[a] == weight_layers(bytes@, a * wb, wb));
        }
        assert forall|a: int, l: int| 0 <= a < plan.weights@.len() && 0 <= l < plan.vertical_stacks implies
            #[trigger] plan.weights@[a]@[l] <= 15 by {
            assert(v[a] == weight_layers(bytes@, a * wb, wb));
        }
    }
    Ok(plan)
}


/// The origin of the ROM tile of layer `layer` at grid place `(xi, zi)`:
/// tiles are 4 blocks apart along +X and -Z, layers 2 blocks apart upward.
pub open spec fn tile_origin(origin: BlockPos, layer: int, xi: int, zi: int) -> (int, int, int) {
    (origin.x + 4 * xi, origin.y + 2 * layer, origin.z - 4 * zi)
}

/// Every tile origin of a `vertical_stacks` x `x_count` x `z_count` grid fits in i32.
pub open spec fn tile_grid_fits(origin: BlockPos, vertical_stacks: int, x_count: int, z_count: int) -> bool {
    &&& 4 * x_count <= i32::MAX
    &&& 2 * vertical_stacks <= i32::MAX
    &&& 4 * z_count <= i32::MAX
    &&& pos_fits(origin.x + 4 * (x_count - 1), origin.y + 2 * (vertical_stacks - 1), origin.z - 4 * (z_count - 1))
}

/// The origins of all ROM tiles, layer by layer, then along X, then along -Z:
/// the tile of `(layer, xi, zi)` is at position `(layer * x_count + xi) * z_count + zi`.
pub fn rom_tile_origins(origin: BlockPos, vertical_stacks: usize, x_count: usize, z_count: usize) -> (r: Vec<BlockPos>)
    requires
        tile_grid_fits(origin, vertical_stacks as int, x_count as int, z_count as int),
    ensures
        r@.len() == vertical_stacks * x_count * z_count,
        forall|layer: int, xi: int, zi: int|
            #![trigger index_of(z_count as int, x_count as int, zi, layer, xi)]
            0 <= layer < vertical_stacks && 0 <= xi < x_count && 0 <= zi < z_count ==> {
                let t = tile_origin(origin, layer, xi, zi);
                pos_is(r@[index_of(z_count as int, x_count as int, zi, layer, xi)], t.0, t.1, t.2)
            },
{
    let ghost vs = vertical_stacks as int;
    let ghost xc = x_count as int;
    let ghost zc = z_count as int;
    let mut positions: Vec<BlockPos> = Vec::new();
    let mut layer: usize = 0;
    while layer < vertical_stacks
        invariant
            tile_grid_fits(origin, vs, xc, zc),
            vs == vertical_stacks,
            xc == x_count,
            zc == z_count,
            layer <= vertical_stacks,
            positions@.len() == layer * xc * zc,
            forall|l: int, x: int, z: int|
                #![trigger index_of(zc, xc, z, l, x)]
                in_box(zc, vs, xc, z, l, x) && index_of(zc, xc, z, l, x) < positions@.len() ==> {
                    let t = tile_origin(origin, l, x, z);
                    pos_is(positions@[index_of(zc, xc, z, l, x)], t.0, t.1, t.2)
                },
        decreases vertical_stacks - layer,
    {
        let mut xi: usize = 0;
        while xi < x_count
            invariant
                tile_grid_fits(origin, vs, xc, zc),
                vs == vertical_stacks,
                xc == x_count,
                zc == z_count,
                layer < vertical_stacks,
                xi <= x_count,
                positions@.len() == layer * xc * zc + xi * zc,
                forall|l: int, x: int, z: int|
                    #![trigger index_of(zc, xc, z, l, x)]
                    in_box(zc, vs, xc, z, l, x) && index_of(zc, xc, z, l, x) < positions@.len() ==> {
                        let t = tile_origin(origin, l, x, z);
                        pos_is(positions@[index_of(zc, xc, z, l, x)], t.0, t.1, t.2)
                    },
            decreases x_count - xi,
        {
            let mut zi: usize = 0;
            while zi < z_count
                invariant
                    tile_grid_fits(origin, vs, xc, zc),
                    vs == vertical_stacks,
                    xc == x_count,
                    zc == z_count,
                    layer < vertical_stacks,
                    xi < x_count,
                    zi <= z_count,
                    positions@.len() == layer * xc * zc + xi * zc + zi,
                    forall|l: int, x: int, z: int|
                        #![trigger index_of(zc, xc, z, l, x)]
                        in_box(zc, vs, xc, z, l, x) && index_of(zc, xc, z, l, x) < positions@.len() ==> {
                            let t = tile_origin(origin, l, x, z);
                            pos_is(positions@[index_of(zc, xc, z, l, x)], t.0, t.1, t.2)
                        },
                decreases z_count - zi,
            {
                proof {
                    assert(layer * xc * zc + xi * zc + zi == index_of(zc, xc, zi as int, layer as int, xi as int)) by (nonlinear_arith);
                }
                let p = BlockPos::new(
                    origin.x + xi as i32 * 4,
                    origin.y + layer as i32 * 2,
                    origin.z - zi as i32 * 4,
                );
                let ghost prev = positions@;
                positions.push(p);
                proof {
                    let cur = (zi as int, layer as int, xi as int);
                    assert forall|l: int, x: int, z: int|
                        #![trigger index_of(zc, xc, z, l, x)]
                        in_box(zc, vs, xc, z, l, x) && index_of(zc, xc, z, l, x) < positions@.len() implies {
                            let t = tile_origin(origin, l, x, z);
                            pos_is(positions@[index_of(zc, xc, z, l, x)], t.0, t.1, t.2)
                        } by {
                        if index_of(zc, xc, z, l, x) == prev.len() {
                            lemma_index_injective(zc, vs, xc, (z, l, x), cur);
                        } else {
                            assert(positions@[index_of(zc, xc, z, l, x)] == prev[index_of(zc, xc, z, l, x)]);
                        }
                    }
                }
                zi = zi + 1;
            }
            proof {
                assert(layer * xc * zc + xi * zc + zc == layer * xc * zc + (xi + 1) * zc) by (nonlinear_arith);
            }
            xi = xi + 1;
        }
        proof {
            assert(layer * xc * zc + xc * zc == (layer + 1) * xc * zc) by (nonlinear_arith);
        }
        layer = layer + 1;
    }
    proof {
        assert(vs * xc * zc == vertical_stacks * x_count * z_count);
        assert forall|layer: int, xi: int, zi: int|
            #![trigger index_of(z_count as int, x_count as int, zi, layer, xi)]
            0 <= layer < vertical_stacks && 0 <= xi < x_count && 0 <= zi < z_count implies {
                let t = tile_origin(origin, layer, xi, zi);
                pos_is(positions@[index_of(z_count as int, x_count as int, zi, layer, xi)], t.0, t.1, t.2)
            } by {
            lemma_index_bounds(zc, vs, xc, zi, layer, xi);
            assert(zc * vs * xc == vs * xc * zc) by (nonlinear_arith);
        }
    }
    positions
}


/// Which of the four barrels of its tile stores address `address`, for a ROM
/// `z_count` tiles deep. Addresses run in pairs along -Z, then back along the
/// second row of the tile, and the pattern mirrors on every other tile column.
pub open spec fn local_address(address: int, z_count: int) -> int {
    let xi = address / (4 * z_count);
    let b0 = (address % (2 * z_count)) % 2;
    let b1 = (address / (2 * z_count)) % 2;
    if xi % 2 == 0 {
        if b0 == 0 && b1 == 0 { 0 } else if b0 == 1 && b1 == 0 { 1 } else if b0 == 0 && b1 == 1 { 3 } else { 2 }
    } else {
        if b0 == 0 && b1 == 0 { 3 } else if b0 == 1 && b1 == 0 { 2 } else if b0 == 0 && b1 == 1 { 0 } else { 1 }
    }
}

/// The offset from a tile's origin to the barrel of each local address.
pub open spec fn barrel_offset(local: int) -> (int, int, int) {
    if local == 0 {
        (-1, 3, -4)
    } else if local == 1 {
        (-1, 2, -6)
    } else if local == 2 {
        (1, 2, -6)
    } else {
        (1, 3, -4)
    }
}

/// The barrel that stores layer `layer` of address `address`.
pub open spec fn barrel_position(origin: BlockPos, z_count: int, address: int, layer: int) -> (int, int, int) {
    let xi = address / (4 * z_count);
    let zi = (address % (2 * z_count)) / 2;
    let t = tile_origin(origin, layer, xi, zi);
    let o = barrel_offset(local_address(address, z_count));
    (t.0 + o.0, t.1 + o.1, t.2 + o.2)
}

/// Where the barrel of each address sits, told by the address alone: address
/// `a` of a ROM `z_count` tiles deep lies in tile column `a / (4 z_count)`
/// and tile row `(a % (2 z_count)) / 2`, `layer` tiles up. An even address
/// sits high and near (y + 3, z - 4), an odd one low and far (y + 2, z - 6).
/// The first half of a tile column's addresses sits on the west side (x - 1)
/// of even columns and on the east side (x + 1) of odd columns, which mirror
/// the even ones; the second half sits on the other side.
pub proof fn law_barrel_places(origin: BlockPos, z_count: int, address: int, layer: int)
    requires
        1 <= z_count,
        0 <= address,
    ensures
        ({
            let xi = address / (4 * z_count);
            let zi = (address % (2 * z_count)) / 2;
            let odd_address = address % 2 == 1;
            let second_half = (address / (2 * z_count)) % 2 == 1;
            let west = second_half == (xi % 2 == 1);
            barrel_position(origin, z_count, address, layer) == (
                origin.x + 4 * xi + (if west { -1int } else { 1int }),
                origin.y + 2 * layer + (if odd_address { 2int } else { 3int }),
                origin.z - 4 * zi + (if odd_address { -6int } else { -4int }),
            )
        }),
{
    vstd::arithmetic::div_mod::lemma_mod_mod(address, 2, z_count);
    assert(2 * z_count == z_count * 2) by (nonlinear_arith);
    lemma_address_parts(address, z_count);
}

/// The offset from a ROM tile's origin to the barrel of a local address (0 to 3).
pub fn romtile_barrel_offset(local_address: usize) -> (r: BlockPos)
    requires
        local_address < 4,
    ensures
        pos_is(r, barrel_offset(local_address as int).0, barrel_offset(local_address as int).1,
            barrel_offset(local_address as int).2),
{
    if local_address == 0 {
        BlockPos::new(-1, 3, -4)
    } else if local_address == 1 {
        BlockPos::new(-1, 2, -6)
    } else if local_address == 2 {
        BlockPos::new(1, 2, -6)
    } else {
        BlockPos::new(1, 3, -4)
    }
}

/// One ROM barrel to write: where it is and the comparator signal it must give.
#[derive(Clone, Copy, Debug, PartialEq, Eq, Structural)]
pub struct BarrelPlacement {
    pub pos: BlockPos,
    pub signal: u8,
}

/// Every barrel of a ROM of this shape fits in i32, as do the tile origins.
pub open spec fn barrel_area_fits(origin: BlockPos, vertical_stacks: int, x_count: int, z_count: int) -> bool {
    &&& 4 * x_count <= i32::MAX
    &&& 2 * vertical_stacks <= i32::MAX
    &&& 4 * z_count <= i32::MAX
    &&& pos_fits(origin.x - 1, origin.y as int, origin.z - 4 * (z_count - 1) - 6)
    &&& pos_fits(origin.x + 4 * (x_count - 1) + 1, origin.y + 2 * (vertical_stacks - 1) + 3, origin.z as int)
}

/// The barrels of a planned ROM, address by address and layer by layer
/// within an address: the barrel of `(address, layer)` is at position
/// `address * vertical_stacks + layer`. The comparator signal is inverted:
/// a stored 0 reads 15 and a stored 15 reads 0.
pub fn rom_barrel_placements(origin: BlockPos, plan: &RomTilePlan) -> (r: Vec<BarrelPlacement>)
    requires
        plan.wf(),
        barrel_area_fits(origin, plan.vertical_stacks as int, plan.x_count as int, plan.z_count as int),
    ensures
        r@.len() == plan.address_count * plan.vertical_stacks,
        forall|a: int, l: int|
            #![trigger r@[a * plan.vertical_stacks + l]]
            0 <= a < plan.address_count && 0 <= l < plan.vertical_stacks ==> {
                let b = r@[a * plan.vertical_stacks + l];
                let p = barrel_position(origin, plan.z_count as int, a, l);
                &&& pos_is(b.pos, p.0, p.1, p.2)
                &&& b.signal == 15 - plan.weights@[a]@[l]
            },
        forall|a: int, l: int|
            #![trigger r@[a * plan.vertical_stacks + l]]
            0 <= a < plan.address_count && 0 <= l < plan.vertical_stacks ==> {
                let b = r@[a * plan.vertical_stacks + l];
                let zc = plan.z_count as int;
                let xi = a / (4 * zc);
                let odd_address = a % 2 == 1;
                let west = ((a / (2 * zc)) % 2 == 1) == (xi % 2 == 1);
                &&& b.pos.x == origin.x + 4 * xi + (if west { -1int } else { 1int })
                &&& b.pos.y == origin.y + 2 * l + (if odd_address { 2int } else { 3int })
                &&& b.pos.z == origin.z - 4 * ((a % (2 * zc)) / 2) + (if odd_address { -6int } else { -4int })
            },
{
    let ghost vs = plan.vertical_stacks as int;
    let ghost xc = plan.x_count as int;
    let ghost zc = plan.z_count as int;
    let vertical_stacks = plan.vertical_stacks;
    let z_count = plan.z_count;
    let address_count = plan.address_count;
    let mut barrels: Vec<BarrelPlacement> = Vec::new();
    let mut address: usize = 0;
    while address < address_count
        invariant
            plan.wf(),
            barrel_area_fits(origin, vs, xc, zc),
            vs == vertical_stacks,
            vertical_stacks == plan.vertical_stacks,
            xc == plan.x_count,
            zc == z_count,
            z_count == plan.z_count,
            address_count == plan.address_count,
            address <= address_count,
            barrels@.len() == address * vs,
            forall|a: int, l: int|
                #![trigger barrels@[a * vs + l]]
                0 <= a < address && 0 <= l < vs ==> {
                    let b = barrels@[a * vs + l];
                    let p = barrel_position(origin, zc, a, l);
                    &&& pos_is(b.pos, p.0, p.1, p.2)
                    &&& b.signal == 15 - plan.weights@[a]@[l]
                },
        decreases address_count - address,
    {
        let xi = address / (z_count * 4);
        let half = address % (z_count * 2);
        let zi = half / 2;
        let b0 = half % 2;
        let b1 = (address / (z_count * 2)) % 2;
        let local: usize = if xi % 2 == 0 {
            if b0 == 0 && b1 == 0 { 0 } else if b0 == 1 && b1 == 0 { 1 } else if b0 == 0 && b1 == 1 { 3 } else { 2 }
        } else {
            if b0 == 0 && b1 == 0 { 3 } else if b0 == 1 && b1 == 0 { 2 } else if b0 == 0 && b1 == 1 { 0 } else { 1 }
        };
        proof {
            assert(xi < xc) by (nonlinear_arith)
                requires xi as int == address as int / (zc * 4), address < 4 * xc * zc, zc >= 1;
            assert(zi < zc) by (nonlinear_arith)
                requires zi as int == half as int / 2, half as int == address as int % (zc * 2), zc >= 1;
            assert(local == local_address(address as int, zc));
        }
        let offset = romtile_barrel_offset(local);
        let barrel_values = &plan.weights[address];
        let mut layer: usize = 0;
        while layer < vertical_stacks
            invariant
                plan.wf(),
                barrel_area_fits(origin, vs, xc, zc),
                vs == vertical_stacks,
                vertical_stacks == plan.vertical_stacks,
                xc == plan.x_count,
                zc == z_count,
                z_count == plan.z_count,
                address_count == plan.address_count,
                address < address_count,
                *barrel_values == plan.weights@[address as int],
                xi == address as int / (4 * zc),
                zi == (address as int % (2 * zc)) / 2,
                xi < xc,
                zi < zc,
                local == local_address(address as int, zc),
                pos_is(offset, barrel_offset(local as int).0, barrel_offset(local as int).1, barrel_offset(local as int).2),
                layer <= vs,
                barrels@.len() == address * vs + layer,
                forall|a: int, l: int|
                    #![trigger barrels@[a * vs + l]]
                    0 <= a <= address && 0 <= l < vs && a * vs + l < barrels@.len() ==> {
                        let b = barrels@[a * vs + l];
                        let p = barrel_position(origin, zc, a, l);
                        &&& pos_is(b.pos, p.0, p.1, p.2)
                        &&& b.signal == 15 - plan.weights@[a]@[l]
                    },
            decreases vs - layer,
        {
            let raw_signal = barrel_values[layer];
            let signal = 15u8 - raw_signal;
            let tile = BlockPos::new(
                origin.x + xi as i32 * 4,
                origin.y + layer as i32 * 2,
                origin.z - zi as i32 * 4,
            );
            let pos = tile.add(offset);
            let ghost prev = barrels@;
            barrels.push(BarrelPlacement { pos, signal });
            proof {
                assert forall|a: int, l: int|
                    #![trigger barrels@[a * vs + l]]
                    0 <= a <= address && 0 <= l < vs && a * vs + l < barrels@.len() implies {
                        let b = barrels@[a * vs + l];
                        let p = barrel_position(origin, zc, a, l);
                        &&& pos_is(b.pos, p.0, p.1, p.2)
                        &&& b.signal == 15 - plan.weights@[a]@[l]
                    } by {
                    if a * vs + l == prev.len() {
                        if a < address {
                            assert(a * vs + l < address * vs) by (nonlinear_arith) requires a < address, l < vs, 0 <= l;
                        }
                        assert(a == address);
                        assert(l == layer);
                    } else {
                        assert(barrels@[a * vs + l] == prev[a * vs + l]);
                    }
                }
            }
            layer = layer + 1;
        }
        proof {
            assert(address * vs + vs == (address + 1) * vs) by (nonlinear_arith);
            assert forall|a: int, l: int|
                #![trigger barrels@[a * vs + l]]
                0 <= a < address + 1 && 0 <= l < vs implies {
                    let b = barrels@[a * vs + l];
                    let p = barrel_position(origin, zc, a, l);
                    &&& pos_is(b.pos, p.0, p.1, p.2)
                    &&& b.signal == 15 - plan.weights@[a]@[l]
                } by {
                let ad = address as int;
                assert(a * vs <= ad * vs) by (nonlinear_arith) requires a <= ad, 0 <= vs;
                assert((ad + 1) * vs == ad * vs + vs) by (nonlinear_arith);
                assert(a * vs + l < (address + 1) * vs);
            }
        }
        address = address + 1;
    }
    proof {
        assert forall|a: int, l: int|
            #![trigger barrels@[a * vs + l]]
            0 <= a < plan.address_count && 0 <= l < vs implies {
                let b = barrels@[a * vs + l];
                let xi = a / (4 * zc);
                let odd_address = a % 2 == 1;
                let west = ((a / (2 * zc)) % 2 == 1) == (xi % 2 == 1);
                &&& b.pos.x == origin.x + 4 * xi + (if west { -1int } else { 1int })
                &&& b.pos.y == origin.y + 2 * l + (if odd_address { 2int } else { 3int })
                &&& b.pos.z == origin.z - 4 * ((a % (2 * zc)) / 2) + (if odd_address { -6int } else { -4int })
            } by {
            law_barrel_places(origin, zc, a, l);
        }
    }
    barrels
}


/// The offset given to the ROM cell schematic so that its origin is the
/// logical origin of a ROM tile.
pub const ROM_CELL_OFFSET_X: i32 = 2;
pub const ROM_CELL_OFFSET_Y: i32 = -1;
pub const ROM_CELL_OFFSET_Z: i32 = 6;

/// The far corner, as integers, of the region that pasting a ROM's tiles
/// may change: the last tile's origin plus the cell size minus one (Z runs
/// toward -Z, so the near Z side is the origin's).
pub open spec fn spec_rom_undo_end(origin: BlockPos, vs: int, xc: int, zc: int, sx: int, sy: int, sz: int) -> (int, int, int) {
    (origin.x + (xc - 1) * 4 + sx - 1, origin.y + (vs - 1) * 2 + sy - 1, origin.z - (zc - 1) * 4 + sz - 1)
}

pub open spec fn rom_undo_end_fits(origin: BlockPos, vs: int, xc: int, zc: int, sx: int, sy: int, sz: int) -> bool {
    &&& xc <= i32::MAX && vs <= i32::MAX && zc <= i32::MAX
    &&& sx <= i32::MAX && sy <= i32::MAX && sz <= i32::MAX
    &&& pos_fits((xc - 1) * 4, (vs - 1) * 2, (zc - 1) * 4)
    &&& pos_fits(origin.x + (xc - 1) * 4, origin.y + (vs - 1) * 2, origin.z - (zc - 1) * 4)
    &&& pos_fits(origin.x + (xc - 1) * 4 + sx, origin.y + (vs - 1) * 2 + sy, origin.z - (zc - 1) * 4 + sz)
    &&& pos_fits(spec_rom_undo_end(origin, vs, xc, zc, sx, sy, sz).0, spec_rom_undo_end(origin, vs, xc, zc, sx, sy, sz).1,
        spec_rom_undo_end(origin, vs, xc, zc, sx, sy, sz).2)
}

/// The far corner of the region that pasting the ROM tiles may change.
pub fn rom_undo_end(
    origin: BlockPos,
    vertical_stacks: usize,
    x_count: usize,
    z_count: usize,
    cell_size_x: u32,
    cell_size_y: u32,
    cell_size_z: u32,
) -> (r: BlockPos)
    requires
        rom_undo_end_fits(origin, vertical_stacks as int, x_count as int, z_count as int, cell_size_x as int,
            cell_size_y as int, cell_size_z as int),
    ensures
        ({
            let e = spec_rom_undo_end(origin, vertical_stacks as int, x_count as int, z_count as int,
                cell_size_x as int, cell_size_y as int, cell_size_z as int);
            pos_is(r, e.0, e.1, e.2)
        }),
{
    BlockPos::new(
        origin.x + (x_count as i32 - 1) * 4 + cell_size_x as i32 - 1,
        origin.y + (vertical_stacks as i32 - 1) * 2 + cell_size_y as i32 - 1,
        origin.z - (z_count as i32 - 1) * 4 + cell_size_z as i32 - 1,
    )
}

/// Where each part of a ROM system goes, derived from the position the player
/// selected for the third addressing part and the ROM's width and height.
pub struct RomSystemLayout {
    /// The origin of the bottom addressing base; every other part is placed relative to it.
    pub addr_origin: BlockPos,
    pub addr2_origin: BlockPos,
    pub addr2_count: usize,
    pub rom_origin: BlockPos,
    pub readline_origin: BlockPos,
    pub hex_2_bin_origin: BlockPos,
    pub addr3_count: usize,
    pub addr3_origin: BlockPos,
    pub addr4_origin: BlockPos,
}

pub open spec fn spec_addr_origin(selected: BlockPos) -> (int, int, int) {
    (selected.x - 2, selected.y + 6, selected.z - 18)
}

pub open spec fn spec_rom_origin(selected: BlockPos) -> (int, int, int) {
    let a = spec_addr_origin(selected);
    (a.0 + 2, a.1 + 4, a.2 + 1)
}

pub open spec fn spec_hex_2_bin_origin(selected: BlockPos, width: int, height: int) -> (int, int, int) {
    let r = spec_rom_origin(selected);
    (r.0 + (width - 1) * 4 + 1, r.1 + (height - 1) * 2 + 3, r.2 + 2)
}

pub open spec fn rom_system_fits(selected: BlockPos, width: int, height: int) -> bool {
    let h = spec_hex_2_bin_origin(selected, width, height);
    let r = spec_rom_origin(selected);
    &&& pos_fits(selected.x - 7, selected.y + 1, selected.z - 18)
    &&& pos_fits(selected.x + 2, selected.y + 10, selected.z + 1)
    &&& 1 <= width <= i32::MAX && 1 <= height <= i32::MAX
    &&& pos_fits((width - 1) * 4, (height - 1) * 2, 0)
    &&& pos_fits(r.0 + (width - 1) * 4, r.1 + (height - 1) * 2, r.2)
    &&& pos_fits(h.0, h.1, h.2)
}

/// Lays out a ROM system of `width` tile columns and `height` layers around
/// the selected position.
pub fn rom_system_layout(selected: BlockPos, width: usize, height: usize) -> (r: RomSystemLayout)
    requires
        rom_system_fits(selected, width as int, height as int),
    ensures
        ({
            let a = spec_addr_origin(selected);
            let ro = spec_rom_origin(selected);
            let h = spec_hex_2_bin_origin(selected, width as int, height as int);
            &&& pos_is(r.addr_origin, a.0, a.1, a.2)
            &&& pos_is(r.addr2_origin, a.0, a.1 - 3, a.2 + 5)
            &&& r.addr2_count == width / 2 + 1
            &&& pos_is(r.rom_origin, ro.0, ro.1, ro.2)
            &&& pos_is(r.readline_origin, a.0 + 4, a.1 + 3, a.2 + 3)
            &&& pos_is(r.hex_2_bin_origin, h.0, h.1, h.2)
            &&& r.addr3_count == width / 4 + 1
            &&& pos_is(r.addr3_origin, a.0 - 3, a.1 - 5, a.2 + 19)
            &&& pos_is(r.addr4_origin, a.0 - 5, a.1 + 3, a.2 + 19)
        }),
{
    let addr_origin = BlockPos::new(selected.x - 2, selected.y + 6, selected.z - 18);
    let addr2_origin = BlockPos::new(addr_origin.x, addr_origin.y - 3, addr_origin.z + 5);
    let addr2_count = width / 2 + 1;
    let rom_origin = BlockPos::new(addr_origin.x + 2, addr_origin.y + 4, addr_origin.z + 1);
    let readline_origin = BlockPos::new(addr_origin.x + 4, addr_origin.y + 3, addr_origin.z + 3);
    let hex_2_bin_origin = BlockPos::new(
        rom_origin.x + (width as i32 - 1) * 4 + 1,
        rom_origin.y + (height as i32 - 1) * 2 + 3,
        rom_origin.z + 2,
    );
    let addr3_count = width / 4 + 1;
    let addr3_origin = BlockPos::new(addr_origin.x - 3, addr_origin.y - 5, addr_origin.z + 19);
    let addr4_origin = BlockPos::new(addr_origin.x - 5, addr_origin.y + 3, addr_origin.z + 19);
    RomSystemLayout {
        addr_origin,
        addr2_origin,
        addr2_count,
        rom_origin,
        readline_origin,
        hex_2_bin_origin,
        addr3_count,
        addr3_origin,
        addr4_origin,
    }
}


fn i64_fits_i32(v: i64) -> (r: bool)
    ensures
        r == fits_i32(v as int),
{
    -2147483648i64 <= v && v <= 2147483647i64
}

/// Lays out a ROM system as `rom_system_layout` does when every part's
/// position fits in i32; `None` when one does not.
pub fn checked_rom_system_layout(selected: BlockPos, width: usize, height: usize) -> (r: Option<RomSystemLayout>)
    ensures
        r is Some <==> rom_system_fits(selected, width as int, height as int),
        r matches Some(l) ==> ({
            let a = spec_addr_origin(selected);
            let ro = spec_rom_origin(selected);
            let h = spec_hex_2_bin_origin(selected, width as int, height as int);
            &&& pos_is(l.addr_origin, a.0, a.1, a.2)
            &&& pos_is(l.addr2_origin, a.0, a.1 - 3, a.2 + 5)
            &&& l.addr2_count == width / 2 + 1
            &&& pos_is(l.rom_origin, ro.0, ro.1, ro.2)
            &&& pos_is(l.readline_origin, a.0 + 4, a.1 + 3, a.2 + 3)
            &&& pos_is(l.hex_2_bin_origin, h.0, h.1, h.2)
            &&& l.addr3_count == width / 4 + 1
            &&& pos_is(l.addr3_origin, a.0 - 3, a.1 - 5, a.2 + 19)
            &&& pos_is(l.addr4_origin, a.0 - 5, a.1 + 3, a.2 + 19)
        }),
{
    if width < 1 || width > 2147483647usize || height < 1 || height > 2147483647usize {
        return None;
    }
    let x = selected.x as i64;
    let y = selected.y as i64;
    let z = selected.z as i64;
    let dx = (width as i64 - 1) * 4;
    let dy = (height as i64 - 1) * 2;
    let fits = i64_fits_i32(x - 7) && i64_fits_i32(y + 1) && i64_fits_i32(z - 18)
        && i64_fits_i32(x + 2) && i64_fits_i32(y + 10) && i64_fits_i32(z + 1)
        && i64_fits_i32(dx) && i64_fits_i32(dy)
        && i64_fits_i32(x + dx) && i64_fits_i32(y + 10 + dy) && i64_fits_i32(z - 17)
        && i64_fits_i32(x + dx + 1) && i64_fits_i32(y + 10 + dy + 3) && i64_fits_i32(z - 15);
    if fits {
        Some(rom_system_layout(selected, width, height))
    } else {
        None
    }
}

/// The modules of a ROM system, in the order they are placed.
#[derive(Clone, Copy, Debug, PartialEq, Eq, Structural)]
pub enum RomSystemModule {
    AddressingPart1,
    AddressingPart2,
    RomTiles,
    Readline,
    HexToBin,
    AddressingPart3,
    AddressingPart4,
}

/// The place of a module in the placing order, from 0.
pub open spec fn module_rank(m: RomSystemModule) -> int {
    match m {
        RomSystemModule::AddressingPart1 => 0,
        RomSystemModule::AddressingPart2 => 1,
        RomSystemModule::RomTiles => 2,
        RomSystemModule::Readline => 3,
        RomSystemModule::HexToBin => 4,
        RomSystemModule::AddressingPart3 => 5,
        RomSystemModule::AddressingPart4 => 6,
    }
}

/// The last place in the placing order.
pub open spec fn last_module_rank() -> int {
    6
}

/// What has just been done while building a ROM system.
#[derive(Clone, Copy, Debug, PartialEq, Eq, Structural)]
pub enum RomSystemDone {
    /// The ROM plan was built from the weight file.
    Plan,
    /// A module was placed.
    Placed(RomSystemModule),
}

/// What building a ROM system does next.
#[derive(Clone, Copy, Debug, PartialEq, Eq, Structural)]
pub enum RomSystemAction {
    /// Refuse: the first position is not set.
    RefuseNoFirstPosition,
    /// Build the ROM plan from the weight file.
    BuildPlan,
    /// Place this module.
    Place(RomSystemModule),
    /// Stop without a further message: the step that failed has said why.
    Stop,
    /// Every module is placed: report the system that was built.
    Report,
}

/// The first decision of the ROM system command: without a first position it
/// refuses, otherwise it builds the plan.
pub fn rom_system_start(first_position: Option<BlockPos>) -> (r: RomSystemAction)
    ensures
        first_position is None ==> r == RomSystemAction::RefuseNoFirstPosition,
        first_position is Some ==> r == RomSystemAction::BuildPlan,
{
    match first_position {
        None => RomSystemAction::RefuseNoFirstPosition,
        Some(_) => RomSystemAction::BuildPlan,
    }
}

/// The decision after a step of the ROM system command: a failed step stops
/// the command; after the plan the first module is placed; after each module
/// the next in order; after the last one the system is reported.
pub fn rom_system_after(done: RomSystemDone, succeeded: bool) -> (r: RomSystemAction)
    ensures
        !succeeded ==> r == RomSystemAction::Stop,
        succeeded && done is Plan ==> r == RomSystemAction::Place(RomSystemModule::AddressingPart1),
        succeeded && done is Placed && module_rank(done->Placed_0) < last_module_rank() ==>
            r is Place && module_rank(r->Place_0) == module_rank(done->Placed_0) + 1,
        succeeded && done is Placed && module_rank(done->Placed_0) == last_module_rank() ==>
            r == RomSystemAction::Report,
{
    if !succeeded {
        return RomSystemAction::Stop;
    }
    match done {
        RomSystemDone::Plan => RomSystemAction::Place(RomSystemModule::AddressingPart1),
        RomSystemDone::Placed(m) => match m {
            RomSystemModule::AddressingPart1 => RomSystemAction::Place(RomSystemModule::AddressingPart2),
            RomSystemModule::AddressingPart2 => RomSystemAction::Place(RomSystemModule::RomTiles),
            RomSystemModule::RomTiles => RomSystemAction::Place(RomSystemModule::Readline),
            RomSystemModule::Readline => RomSystemAction::Place(RomSystemModule::HexToBin),
            RomSystemModule::HexToBin => RomSystemAction::Place(RomSystemModule::AddressingPart3),
            RomSystemModule::AddressingPart3 => RomSystemAction::Place(RomSystemModule::AddressingPart4),
            RomSystemModule::AddressingPart4 => RomSystemAction::Report,
        },
    }
}

/// Every module has exactly one place in the placing order, so a ROM system
/// whose steps all succeed places each module once, in that order.
pub proof fn law_module_order_is_a_sequence(m: RomSystemModule, n: RomSystemModule)
    ensures
        0 <= module_rank(m) <= last_module_rank(),
        module_rank(m) == module_rank(n) ==> m == n,
{
}

proof fn lemma_address_parts(a: int, d: int)
    requires
        0 <= a,
        1 <= d,
    ensures
        a == 4 * d * (a / (4 * d)) + 2 * d * ((a / (2 * d)) % 2) + 2 * ((a % (2 * d)) / 2) + (a % (2 * d)) % 2,
        0 <= (a / (2 * d)) % 2 <= 1,
        0 <= (a % (2 * d)) % 2 <= 1,
        0 <= (a / (4 * d)) % 2 <= 1,
        0 <= a / (4 * d),
        0 <= (a % (2 * d)) / 2,
{
    let q2 = a / (2 * d);
    let s = a % (2 * d);
    vstd::arithmetic::div_mod::lemma_fundamental_div_mod(a, 2 * d);
    vstd::arithmetic::div_mod::lemma_mod_bound(a, 2 * d);
    vstd::arithmetic::div_mod::lemma_fundamental_div_mod(q2, 2);
    vstd::arithmetic::div_mod::lemma_mod_bound(q2, 2);
    vstd::arithmetic::div_mod::lemma_fundamental_div_mod(s, 2);
    vstd::arithmetic::div_mod::lemma_mod_bound(s, 2);
    vstd::arithmetic::div_mod::lemma_div_pos_is_pos(a, 2 * d);
    vstd::arithmetic::div_mod::lemma_div_denominator(a, 2 * d, 2);
    assert(2 * d * 2 == 4 * d);
    let xi = a / (4 * d);
    vstd::arithmetic::div_mod::lemma_div_pos_is_pos(a, 4 * d);
    vstd::arithmetic::div_mod::lemma_mod_bound(xi, 2);
    vstd::arithmetic::div_mod::lemma_div_pos_is_pos(s, 2);
    assert(q2 / 2 == xi);
    assert(a == 2 * d * q2 + s);
    assert(q2 == 2 * xi + q2 % 2);
    assert(s == 2 * (s / 2) + s % 2);
    assert(2 * d * q2 == 4 * d * xi + 2 * d * (q2 % 2)) by (nonlinear_arith)
        requires q2 == 2 * xi + q2 % 2;
}

/// Distinct address and layer pairs of a ROM are stored in distinct barrels,
/// so no barrel is written twice.
pub proof fn law_barrels_distinct(origin: BlockPos, z_count: int, a1: int, l1: int, a2: int, l2: int)
    requires
        1 <= z_count,
        0 <= a1,
        0 <= a2,
        a1 != a2 || l1 != l2,
    ensures
        barrel_position(origin, z_count, a1, l1) != barrel_position(origin, z_count, a2, l2),
{
    let d = z_count;
    lemma_address_parts(a1, d);
    lemma_address_parts(a2, d);
    if barrel_position(origin, d, a1, l1) == barrel_position(origin, d, a2, l2) {
        let xi1 = a1 / (4 * d);
        let xi2 = a2 / (4 * d);
        let zi1 = (a1 % (2 * d)) / 2;
        let zi2 = (a2 % (2 * d)) / 2;
        let o1 = barrel_offset(local_address(a1, d));
        let o2 = barrel_offset(local_address(a2, d));
        assert(xi1 == xi2);
        assert(l1 == l2);
        assert(zi1 == zi2);
        assert(o1 == o2);
        assert(local_address(a1, d) == local_address(a2, d));
        assert(a1 == a2);
    }
}

} // verus!
