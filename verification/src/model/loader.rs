//! Reading weights from a `.safetensors` buffer: the tensors it holds,
//! with their elements converted to `f32` bit patterns.

use vstd::prelude::*;

verus! {

broadcast use vstd::string::group_string_axioms;

/// One tensor of a safetensors file: name, element type (as the file's
/// header spells it, such as `F32`), shape and raw little-endian bytes.
pub struct RawTensor {
    pub name: String,
    pub dtype: String,
    pub shape: Vec<usize>,
    pub data: Vec<u8>,
}

/// What `safetensors::SafeTensors::deserialize` makes of a buffer: `None`
/// when it refuses it, else each tensor's element type (the name of its
/// `Dtype` variant), shape and bytes, by name.
pub uninterp spec fn safetensors_contents(buffer: Seq<u8>) -> Option<
    Map<Seq<char>, (Seq<char>, Seq<usize>, Seq<u8>)>,
>;

/// Whether `ts` lists the tensors of `m`: each once, with its entry.
pub open spec fn lists_tensors(ts: Seq<RawTensor>, m: Map<Seq<char>, (Seq<char>, Seq<usize>, Seq<u8>)>) -> bool {
    &&& forall|i: int|
        0 <= i < ts.len() ==> #[trigger] m.contains_key(ts[i].name@) && m[ts[i].name@] == (
            ts[i].dtype@,
            ts[i].shape@,
            ts[i].data@,
        )
    &&& forall|k: Seq<char>| #[trigger]
        m.contains_key(k) ==> exists|i: int| 0 <= i < ts.len() && ts[i].name@ == k
    &&& forall|i: int, j: int|
        0 <= i < ts.len() && 0 <= j < ts.len() && i != j ==> ts[i].name@ != ts[j].name@
}

/// The header length that a safetensors buffer declares: its first eight
/// bytes, little-endian.
pub open spec fn declared_header_len(b: Seq<u8>) -> int {
    b[0] + 0x100 * b[1] + 0x1_0000 * b[2] + 0x100_0000 * b[3] + 0x1_0000_0000 * b[4]
        + 0x100_0000_0000 * b[5] + 0x1_0000_0000_0000 * b[6] + 0x100_0000_0000_0000 * b[7]
}

/// The largest header the safetensors crate reads.
pub open spec fn max_header_len() -> int {
    100_000_000
}

/// What `serde_json::from_str` makes of a safetensors header read as
/// `safetensors::tensor::Metadata`: `None` when it refuses the text, else
/// the end offset of each tensor's data.
pub uninterp spec fn header_data_ends(header: Seq<char>) -> Option<vstd::multiset::Multiset<usize>>;

/// Whether each data end plus 8 plus the header length `n` fits in a
/// `usize`.
pub open spec fn ends_fit(ends: vstd::multiset::Multiset<usize>, n: int) -> bool {
    forall|e: usize| #[trigger] ends.count(e) > 0 ==> e + 8 + n <= usize::MAX
}

/// Whether the safetensors crate can read `b` without overflowing: it
/// adds the end of the declared tensor data, 8 and the header length
/// unchecked, after it has read the header. Buffers it refuses before that
/// point always qualify; otherwise every declared data end plus 8 plus
/// the header length must fit in a `usize`.
pub open spec fn header_sum_fits(b: Seq<u8>) -> bool {
    if b.len() < 8 {
        true
    } else {
        let n = declared_header_len(b);
        if n > max_header_len() || n + 8 > b.len() {
            true
        } else {
            let hb = b.subrange(8, n + 8);
            if !vstd::utf8::valid_utf8(hb) {
                true
            } else {
                match header_data_ends(vstd::utf8::decode_utf8(hb)) {
                    None => true,
                    Some(ends) => ends_fit(ends, n),
                }
            }
        }
    }
}

/// Reads bytes as UTF-8 text.
///
/// Calls `std::str::from_utf8`, which gives the text exactly when the
/// bytes are valid UTF-8.
#[verifier::external_body]
fn utf8_text(bytes: &[u8]) -> (r: Option<&str>)
    ensures
        match r {
            Some(s) => vstd::utf8::valid_utf8(bytes@) && s@ == vstd::utf8::decode_utf8(bytes@),
            None => !vstd::utf8::valid_utf8(bytes@),
        },
{
    std::str::from_utf8(bytes).ok()
}

/// The data end offsets that a safetensors header declares.
///
/// Calls `serde_json::from_str::<safetensors::tensor::Metadata>`, the parse
/// that `SafeTensors::deserialize` makes of the header (it does not check
/// the offsets), and picks the end offset of each tensor. The list's order
/// follows a hash map; the contract names only the multiset of ends.
#[verifier::external_body]
fn header_ends(header: &str) -> (r: Option<Vec<usize>>)
    ensures
        match r {
            None => header_data_ends(header@) is None,
            Some(v) => header_data_ends(header@) == Some(v@.to_multiset()),
        },
{
    match serde_json::from_str::<safetensors::tensor::Metadata>(header) {
        Ok(m) => Some(m.tensors().values().map(|t| t.data_offsets.1).collect()),
        Err(_) => None,
    }
}

/// Reads the tensors of a safetensors buffer.
///
/// Calls `safetensors::SafeTensors::deserialize` and lists its tensors,
/// each with its `Dtype` written by `Debug` and a copy of its bytes. The
/// contract claims that the call succeeds exactly when the buffer has
/// contents, and that the list holds each tensor of those contents once.
/// The order of the list follows the crate's hash map and is not stated;
/// neither is the error text, which for some malformed headers names a
/// tensor chosen by that order. The crate adds the declared data end, 8
/// and the header length without an overflow check
/// (`safetensors-0.4.5/src/tensor.rs:315`); `requires` leaves out the
/// buffers on which that sum overflows.
#[verifier::external_body]
fn read_safetensors(buffer: &[u8]) -> (r: Result<Vec<RawTensor>, String>)
    requires
        header_sum_fits(buffer@),
    ensures
        r is Err <==> safetensors_contents(buffer@) is None,
        r matches Ok(ts) ==> lists_tensors(ts@, safetensors_contents(buffer@).unwrap()),
{
    match safetensors::SafeTensors::deserialize(buffer) {
        Ok(st) => Ok(
            st.tensors().into_iter().map(
                |(name, view)| RawTensor {
                    name,
                    dtype: format!("{:?}", view.dtype()),
                    shape: view.shape().to_vec(),
                    data: view.data().to_vec(),
                },
            ).collect(),
        ),
        Err(e) => Err(e.to_string()),
    }
}


fn header_len_of(buffer: &[u8]) -> (n: u64)
    requires
        buffer@.len() >= 8,
    ensures
        n == declared_header_len(buffer@),
{
    (buffer[0] as u64) + 0x100 * (buffer[1] as u64) + 0x1_0000 * (buffer[2] as u64) + 0x100_0000
        * (buffer[3] as u64) + 0x1_0000_0000 * (buffer[4] as u64) + 0x100_0000_0000 * (
    buffer[5] as u64) + 0x1_0000_0000_0000 * (buffer[6] as u64) + 0x100_0000_0000_0000 * (
    buffer[7] as u64)
}

/// Whether the safetensors crate can read `buffer` without overflowing
/// (see `header_sum_fits`).
pub fn header_fits(buffer: &[u8]) -> (r: bool)
    ensures
        r == header_sum_fits(buffer@),
{
    if buffer.len() < 8 {
        return true;
    }
    let n64 = header_len_of(buffer);
    if n64 > 100_000_000 {
        return true;
    }
    let n = n64 as usize;
    if n > buffer.len() - 8 {
        return true;
    }
    let stop = n + 8;
    let mut header: Vec<u8> = Vec::new();
    let mut i: usize = 8;
    while i < stop
        invariant
            stop == n + 8,
            8 <= i <= n + 8 <= buffer@.len(),
            header@ == buffer@.subrange(8, i as int),
        decreases stop - i,
    {
        header.push(buffer[i]);
        i = i + 1;
        assert(header@ =~= buffer@.subrange(8, i as int));
    }
    let text = match utf8_text(header.as_slice()) {
        Some(t) => t,
        None => {
            return true;
        },
    };
    let ends = match header_ends(text) {
        Some(v) => v,
        None => {
            return true;
        },
    };
    let limit = usize::MAX - 8 - n;
    let ghost hb = buffer@.subrange(8, n + 8);
    assert(header@ == hb);
    let mut j: usize = 0;
    while j < ends.len()
        invariant
            j <= ends@.len(),
            buffer@.len() >= 8,
            n == declared_header_len(buffer@),
            n <= max_header_len(),
            n + 8 <= buffer@.len(),
            hb == buffer@.subrange(8, n + 8),
            vstd::utf8::valid_utf8(hb),
            header_data_ends(vstd::utf8::decode_utf8(hb)) == Some(ends@.to_multiset()),
            limit == usize::MAX - 8 - n,
            forall|k: int| 0 <= k < j ==> ends@[k] <= limit,
        decreases ends@.len() - j,
    {
        if ends[j] > limit {
            proof {
                broadcast use vstd::seq_lib::group_to_multiset_ensures;

                let e = ends@[j as int];
                assert(ends@.contains(e));
                assert(ends@.to_multiset().count(e) > 0);
                assert(!ends_fit(ends@.to_multiset(), n as int));
                assert(buffer@.subrange(8, declared_header_len(buffer@) + 8) == hb);
            }
            return false;
        }
        j = j + 1;
    }
    proof {
        broadcast use vstd::seq_lib::group_to_multiset_ensures;

        assert forall|e: usize| #[trigger] ends@.to_multiset().count(e) > 0 implies e + 8 + n
            <= usize::MAX by {
            assert(ends@.contains(e));
        }
    }
    true
}

/// The error for a buffer whose declared tensor data would overflow the
/// crate's size arithmetic.
pub open spec fn overflow_message() -> Seq<char> {
    "safetensors error: tensor data offsets overflow"@
}

/// Loads model weights.
pub struct Loader;

/// A tensor whose elements are `f32` values, each given by its bit
/// pattern.
pub struct DecodedTensor {
    pub name: String,
    pub shape: Vec<usize>,
    pub bits: Vec<u32>,
}

/// The little-endian 16-bit word at index `i` of `b`.
pub open spec fn le16(b: Seq<u8>, i: int) -> int {
    b[2 * i] + 256 * b[2 * i + 1]
}

/// The little-endian 32-bit word at index `i` of `b`.
pub open spec fn le32(b: Seq<u8>, i: int) -> int {
    b[4 * i] + 256 * b[4 * i + 1] + 65536 * b[4 * i + 2] + 16777216 * b[4 * i + 3]
}

/// Doubles a nonzero mantissa until its leading bit is bit 10, counting
/// the doublings.
pub open spec fn normalize(m: nat, e: nat) -> (nat, nat)
    decreases (if m >= 1024 {
        0
    } else {
        1024 - m
    }),
{
    if m == 0 || m >= 1024 {
        (m, e)
    } else {
        normalize(2 * m, e + 1)
    }
}

/// The `f32` bit pattern of the IEEE half-precision value with bits `h`:
/// zeros and subnormals (the latter normalized), normal numbers with
/// their exponent rebiased, infinities, and a quiet NaN (`0x7FC0_0000`,
/// the pattern of `f32::NAN`) for every NaN.
pub open spec fn f16_to_f32_bits(h: int) -> u32 {
    let sign = h / 32768;
    let exp = (h / 1024) % 32;
    let mant = h % 1024;
    let high = sign * 0x8000_0000;
    (if exp == 0 {
        if mant == 0 {
            high
        } else {
            let (m, e) = normalize(mant as nat, 0);
            high + (113 - e) * 0x80_0000 + (m - 1024) * 0x2000
        }
    } else if exp == 31 {
        if mant == 0 {
            high + 0x7F80_0000
        } else {
            0x7FC0_0000
        }
    } else {
        high + (exp + 112) * 0x80_0000 + mant * 0x2000
    }) as u32
}

/// The `f32` bit patterns of the elements of `data` declared as `dtype`:
/// `F32` words as they are, `BF16` words shifted into the upper half, `F16`
/// words converted; trailing bytes that fill no element are ignored. Other
/// element types are not supported (`None`).
pub open spec fn decode_elements(dtype: Seq<char>, data: Seq<u8>) -> Option<Seq<u32>> {
    if dtype == "F32"@ {
        Some(Seq::new(data.len() / 4, |i: int| le32(data, i) as u32))
    } else if dtype == "BF16"@ {
        Some(Seq::new(data.len() / 2, |i: int| (le16(data, i) * 65536) as u32))
    } else if dtype == "F16"@ {
        Some(Seq::new(data.len() / 2, |i: int| f16_to_f32_bits(le16(data, i))))
    } else {
        None
    }
}

/// Whether every tensor of `c` has a supported element type.
pub open spec fn all_supported(c: Map<Seq<char>, (Seq<char>, Seq<usize>, Seq<u8>)>) -> bool {
    forall|k: Seq<char>| #[trigger] c.contains_key(k) ==> decode_elements(c[k].0, c[k].2) is Some
}

/// Whether `ds` lists the tensors of `c` decoded: each once, with its
/// shape and its elements' bit patterns.
pub open spec fn decodes(ds: Seq<DecodedTensor>, c: Map<Seq<char>, (Seq<char>, Seq<usize>, Seq<u8>)>) -> bool {
    &&& forall|i: int|
        0 <= i < ds.len() ==> #[trigger] c.contains_key(ds[i].name@) && ds[i].shape@ == c[ds[i].name@].1
            && decode_elements(c[ds[i].name@].0, c[ds[i].name@].2) == Some(ds[i].bits@)
    &&& forall|k: Seq<char>| #[trigger]
        c.contains_key(k) ==> exists|i: int| 0 <= i < ds.len() && ds[i].name@ == k
    &&& forall|i: int, j: int|
        0 <= i < ds.len() && 0 <= j < ds.len() && i != j ==> ds[i].name@ != ds[j].name@
}

/// The message for a tensor whose element type is not supported.
pub open spec fn unsupported_message(name: Seq<char>, dtype: Seq<char>) -> Seq<char> {
    "unsupported data type in tensor "@ + name + ": "@ + dtype
}

proof fn lemma_normalize(m: nat, e: nat)
    requires
        0 < m < 2048,
    ensures
        1024 <= normalize(m, e).0 < 2048 || m >= 1024,
        m >= 1024 ==> normalize(m, e) == (m, e),
    decreases (if m >= 1024 {
        0
    } else {
        1024 - m
    }),
{
    if m < 1024 {
        lemma_normalize(2 * m, e + 1);
    }
}

fn f16_bits(h: u16) -> (r: u32)
    ensures
        r == f16_to_f32_bits(h as int),
{
    let sign = (h / 32768) as u32;
    let exp = ((h / 1024) % 32) as u32;
    let mant = (h % 1024) as u32;
    let high = sign * 0x8000_0000u32;
    if exp == 0 {
        if mant == 0 {
            high
        } else {
            let mut m = mant;
            let mut e: u32 = 0;
            while m < 1024
                invariant
                    0 < m < 2048,
                    e <= 10,
                    normalize(m as nat, e as nat) == normalize(mant as nat, 0),
                    m as int >= pow2_nat(e as nat),
                decreases 2048 - m,
            {
                proof {
                    lemma_pow2_bound(e as nat);
                    assert(pow2_nat((e + 1) as nat) == 2 * pow2_nat(e as nat));
                }
                m = m * 2;
                e = e + 1;
            }
            proof {
                lemma_normalize(m as nat, e as nat);
            }
            high + (113 - e) * 0x80_0000u32 + (m - 1024) * 0x2000u32
        }
    } else if exp == 31 {
        if mant == 0 {
            high + 0x7F80_0000u32
        } else {
            0x7FC0_0000u32
        }
    } else {
        high + (exp + 112) * 0x80_0000u32 + mant * 0x2000u32
    }
}

/// `2` to the power `e`.
pub open spec fn pow2_nat(e: nat) -> nat
    decreases e,
{
    if e == 0 {
        1
    } else {
        2 * pow2_nat((e - 1) as nat)
    }
}

proof fn lemma_pow2_bound(e: nat)
    ensures
        e >= 10 ==> pow2_nat(e) >= 1024,
        pow2_nat(e) >= 1,
    decreases e,
{
    if e > 0 {
        lemma_pow2_bound((e - 1) as nat);
        if e >= 10 && e - 1 < 10 {
            assert(pow2_nat(10) == 1024) by {
                reveal_with_fuel(pow2_nat, 11);
            }
        }
    }
}

fn decode_words(dtype: &String, data: &Vec<u8>) -> (r: Option<Vec<u32>>)
    ensures
        match r {
            Some(bits) => decode_elements(dtype@, data@) == Some(bits@),
            None => decode_elements(dtype@, data@) is None,
        },
{
    let f32_name = "F32".to_owned();
    let bf16_name = "BF16".to_owned();
    let f16_name = "F16".to_owned();
    if *dtype == f32_name {
        let n = data.len() / 4;
        let mut bits: Vec<u32> = Vec::new();
        let mut i: usize = 0;
        while i < n
            invariant
                n == data@.len() / 4,
                i <= n,
                bits@ == Seq::new(i as nat, |j: int| le32(data@, j) as u32),
            decreases n - i,
        {
            assert(4 * i + 3 < data.len()) by (nonlinear_arith)
                requires
                    i < n,
                    n == data@.len() / 4,
            ;
            let w = (data[4 * i] as u32) + (data[4 * i + 1] as u32) * 256 + (data[4 * i + 2] as u32)
                * 65536 + (data[4 * i + 3] as u32) * 16777216;
            bits.push(w);
            i = i + 1;
            assert(bits@ =~= Seq::new(i as nat, |j: int| le32(data@, j) as u32));
        }
        Some(bits)
    } else if *dtype == bf16_name {
        let n = data.len() / 2;
        let mut bits: Vec<u32> = Vec::new();
        let mut i: usize = 0;
        while i < n
            invariant
                n == data@.len() / 2,
                i <= n,
                bits@ == Seq::new(i as nat, |j: int| (le16(data@, j) * 65536) as u32),
            decreases n - i,
        {
            assert(2 * i + 1 < data.len()) by (nonlinear_arith)
                requires
                    i < n,
                    n == data@.len() / 2,
            ;
            let w = ((data[2 * i] as u32) + (data[2 * i + 1] as u32) * 256) * 65536;
            bits.push(w);
            i = i + 1;
            assert(bits@ =~= Seq::new(i as nat, |j: int| (le16(data@, j) * 65536) as u32));
        }
        Some(bits)
    } else if *dtype == f16_name {
        let n = data.len() / 2;
        let mut bits: Vec<u32> = Vec::new();
        let mut i: usize = 0;
        while i < n
            invariant
                n == data@.len() / 2,
                i <= n,
                bits@ == Seq::new(i as nat, |j: int| f16_to_f32_bits(le16(data@, j))),
            decreases n - i,
        {
            assert(2 * i + 1 < data.len()) by (nonlinear_arith)
                requires
                    i < n,
                    n == data@.len() / 2,
            ;
            let h = (data[2 * i] as u16) + (data[2 * i + 1] as u16) * 256;
            bits.push(f16_bits(h));
            i = i + 1;
            assert(bits@ =~= Seq::new(i as nat, |j: int| f16_to_f32_bits(le16(data@, j))));
        }
        Some(bits)
    } else {
        None
    }
}

/// Whether `ds` is `ts` decoded: the same names and shapes, in order,
/// each with its elements converted.
pub open spec fn decoded_in_order(ts: Seq<RawTensor>, ds: Seq<DecodedTensor>) -> bool {
    &&& ds.len() == ts.len()
    &&& forall|j: int|
        0 <= j < ts.len() ==> {
            &&& #[trigger] ds[j].name@ == ts[j].name@
            &&& ds[j].shape@ == ts[j].shape@
            &&& decode_elements(ts[j].dtype@, ts[j].data@) == Some(ds[j].bits@)
        }
}

/// Whether `j` is the first tensor of `ts` whose element type cannot be
/// decoded.
pub open spec fn first_unsupported(ts: Seq<RawTensor>, j: int) -> bool {
    &&& 0 <= j < ts.len()
    &&& decode_elements(ts[j].dtype@, ts[j].data@) is None
    &&& forall|i: int| 0 <= i < j ==> decode_elements(#[trigger] ts[i].dtype@, ts[i].data@) is Some
}

impl Loader {
    /// Decodes tensors in order: each keeps its name and shape and has its
    /// elements converted to `f32` bit patterns; the first tensor of an
    /// unsupported element type stops the decoding with
    /// `unsupported data type in tensor <name>: <type>`.
    pub fn decode_tensors(ts: &Vec<RawTensor>) -> (r: Result<Vec<DecodedTensor>, String>)
        ensures
            match r {
                Ok(ds) => decoded_in_order(ts@, ds@),
                Err(m) => exists|j: int|
                    first_unsupported(ts@, j) && m@ == unsupported_message(
                        #[trigger] ts@[j].name@,
                        ts@[j].dtype@,
                    ),
            },
    {
        let mut out: Vec<DecodedTensor> = Vec::new();
        let mut i: usize = 0;
        while i < ts.len()
            invariant
                i <= ts.len(),
                out@.len() == i,
                forall|j: int| 0 <= j < i ==> {
                    &&& #[trigger] out@[j].name@ == ts@[j].name@
                    &&& out@[j].shape@ == ts@[j].shape@
                    &&& decode_elements(ts@[j].dtype@, ts@[j].data@) == Some(out@[j].bits@)
                },
            decreases ts.len() - i,
        {
            let t = &ts[i];
            match decode_words(&t.dtype, &t.data) {
                Some(bits) => {
                    let shape = t.shape.clone();
                    assert(shape@ =~= t.shape@);
                    out.push(DecodedTensor { name: t.name.clone(), shape, bits });
                },
                None => {
                    let mut m = "unsupported data type in tensor ".to_owned();
                    m.append(t.name.as_str());
                    m.append(": ");
                    m.append(t.dtype.as_str());
                    assert forall|k: int| 0 <= k < i implies decode_elements(
                        #[trigger] ts@[k].dtype@,
                        ts@[k].data@,
                    ) is Some by {
                        assert(out@[k].name@ == ts@[k].name@);
                    }
                    assert(first_unsupported(ts@, i as int));
                    return Err(m);
                },
            }
            i = i + 1;
        }
        Ok(out)
    }

    /// Reads the tensors of a safetensors buffer and converts their
    /// elements to `f32` bit patterns.
    ///
    /// A buffer on which the safetensors crate's unchecked sum of data end,
    /// 8 and header length would overflow (see `header_sum_fits`) yields
    /// `overflow_message()`. Otherwise, a buffer the format refuses yields
    /// `safetensors error: ` and the crate's error text; a tensor of an
    /// unsupported element type yields `unsupported data type in tensor
    /// <name>: <type>` for such a tensor; and else every tensor is listed
    /// once, decoded.
    pub fn decode_weights(buffer: &[u8]) -> (r: Result<Vec<DecodedTensor>, String>)
        ensures
            !header_sum_fits(buffer@) ==> (r matches Err(m) && m@ == overflow_message()),
            header_sum_fits(buffer@) && safetensors_contents(buffer@) is None ==> (r matches Err(
                m,
            ) && exists|e: Seq<char>| m@ == "safetensors error: "@ + e),
            header_sum_fits(buffer@) ==> (safetensors_contents(buffer@) matches Some(c) ==> {
                &&& all_supported(c) ==> (r matches Ok(ds) && decodes(ds@, c))
                &&& !all_supported(c) ==> (r matches Err(m) && exists|k: Seq<char>|
                    #[trigger] c.contains_key(k) && decode_elements(c[k].0, c[k].2) is None && m@
                        == unsupported_message(k, c[k].0))
            }),
    {
        if !header_fits(buffer) {
            return Err("safetensors error: tensor data offsets overflow".to_owned());
        }
        let raw = match read_safetensors(buffer) {
            Ok(ts) => ts,
            Err(e) => {
                let mut m = "safetensors error: ".to_owned();
                m.append(e.as_str());
                return Err(m);
            },
        };
        let ghost c = safetensors_contents(buffer@).unwrap();
        let r = Loader::decode_tensors(&raw);
        proof {
            match &r {
                Ok(out) => {
                    assert forall|k: Seq<char>| #[trigger] c.contains_key(k) implies decode_elements(
                        c[k].0,
                        c[k].2,
                    ) is Some by {
                        let j = choose|j: int| 0 <= j < raw@.len() && raw@[j].name@ == k;
                        assert(out@[j].name@ == raw@[j].name@);
                    }
                    assert forall|k: Seq<char>| #[trigger] c.contains_key(k) implies exists|j: int|
                        0 <= j < out@.len() && out@[j].name@ == k by {
                        let j = choose|j: int| 0 <= j < raw@.len() && raw@[j].name@ == k;
                        assert(out@[j].name@ == raw@[j].name@);
                    }
                    assert forall|a: int, b: int|
                        0 <= a < out@.len() && 0 <= b < out@.len() && a != b implies out@[a].name@
                        != out@[b].name@ by {
                        assert(out@[a].name@ == raw@[a].name@);
                        assert(out@[b].name@ == raw@[b].name@);
                    }
                    assert forall|j: int| 0 <= j < out@.len() implies c.contains_key(
                        #[trigger] out@[j].name@,
                    ) by {
                        assert(out@[j].name@ == raw@[j].name@);
                    }
                },
                Err(m) => {
                    let j = choose|j: int|
                        first_unsupported(raw@, j) && m@ == unsupported_message(
                            #[trigger] raw@[j].name@,
                            raw@[j].dtype@,
                        );
                    assert(c.contains_key(raw@[j].name@));
                },
            }
        }
        r
    }
}
proof fn lemma_fields(s: int, e: int, m: int)
    requires
        0 <= s <= 1,
        0 <= e < 256,
        0 <= m < 0x80_0000,
    ensures
        ({
            let x = s * 0x8000_0000 + e * 0x80_0000 + m;
            &&& 0 <= x < 0x1_0000_0000
            &&& x / 0x8000_0000 == s
            &&& (x / 0x80_0000) % 256 == e
            &&& x % 0x80_0000 == m
        }),
{
    let x = s * 0x8000_0000 + e * 0x80_0000 + m;
    assert(x == (s * 256 + e) * 0x80_0000 + m);
    vstd::arithmetic::div_mod::lemma_fundamental_div_mod_converse(x, 0x80_0000, s * 256 + e, m);
    vstd::arithmetic::div_mod::lemma_fundamental_div_mod_converse(s * 256 + e, 256, s, e);
    assert(x == s * 0x8000_0000 + (e * 0x80_0000 + m));
    assert(e * 0x80_0000 + m < 0x8000_0000);
    vstd::arithmetic::div_mod::lemma_fundamental_div_mod_converse(x, 0x8000_0000, s, e * 0x80_0000 + m);
}

proof fn lemma_normalize_value(m: nat, e0: nat)
    requires
        0 < m < 2048,
    ensures
        normalize(m, e0).1 >= e0,
        normalize(m, e0).0 == m * vstd::arithmetic::power2::pow2((normalize(m, e0).1 - e0) as nat),
        m < 1024 ==> 1024 <= normalize(m, e0).0 < 2048,
    decreases 2048 - m,
{
    broadcast use vstd::arithmetic::power2::lemma_pow2_unfold;

    if m < 1024 {
        lemma_normalize_value(2 * m, e0 + 1);
        assert(normalize(m, e0) == normalize(2 * m, e0 + 1));
        let (mm, ee) = normalize(2 * m, e0 + 1);
        let d = (ee - e0) as nat;
        assert((ee - (e0 + 1)) as nat == (d - 1) as nat);
        let p = vstd::arithmetic::power2::pow2((d - 1) as nat);
        vstd::arithmetic::power2::lemma_pow2_unfold(d);
        assert(vstd::arithmetic::power2::pow2(d) == 2 * p);
        assert(mm == (2 * m) * p);
        assert((2 * m) * p == m * (2 * p)) by (nonlinear_arith);
        assert(normalize(m, e0).0 == m * vstd::arithmetic::power2::pow2(d));
        assert((normalize(m, e0).1 - e0) as nat == d);
    } else {
        assert(normalize(m, e0) == (m, e0));
        assert(vstd::arithmetic::power2::pow2(0) == 1) by {
            vstd::arithmetic::power2::lemma2_to64();
        }
        assert((normalize(m, e0).1 - e0) as nat == 0);
        assert(m * vstd::arithmetic::power2::pow2(0) == m * 1);
    }
}

/// F16 decoding keeps the value of every half: for the half `h` at index
/// `j` (little-endian) with sign `s`, exponent field `e` and mantissa
/// `m`, the decoded `f32` (sign `x / 2^31`, exponent field `E`, mantissa
/// field `M`) is:
/// - for a normal half (`e` in 1..=30): sign `s`, `E == e + 112` (the same
///   power of two, rebiased from 15 to 127) and `M == m * 2^13`;
/// - for a subnormal half (`e == 0`, `m > 0`, value `m * 2^-24`): sign `s`,
///   `E` in 103..=112 and `(2^23 + M) * 2^(E - 150) == m * 2^-24`, i.e.
///   `2^23 + M == m * 2^(126 - E)`;
/// - a zero of sign `s`, an infinity of sign `s`, or for a NaN a NaN.
pub proof fn law_f16_keeps_value(data: Seq<u8>, j: int)
    requires
        0 <= j < data.len() / 2,
    ensures
        ({
            let h = data[2 * j] + 256 * data[2 * j + 1];
            let (s, e, m) = (h / 0x8000, (h / 0x400) % 32, h % 0x400);
            decode_elements("F16"@, data) matches Some(bits) && {
                let x = bits[j] as int;
                let (xs, xe, xm) = (x / 0x8000_0000, (x / 0x80_0000) % 256, x % 0x80_0000);
                &&& bits.len() == data.len() / 2
                &&& (1 <= e <= 30 ==> xs == s && xe == e + 112 && xm == m * 0x2000)
                &&& (e == 0 && m > 0 ==> xs == s && 103 <= xe <= 112 && 0x80_0000 + xm == m
                    * vstd::arithmetic::power2::pow2((126 - xe) as nat))
                &&& (e == 0 && m == 0 ==> x == s * 0x8000_0000)
                &&& (e == 31 && m == 0 ==> xs == s && xe == 255 && xm == 0)
                &&& (e == 31 && m != 0 ==> xe == 255 && xm != 0)
            }
        }),
{
    reveal_strlit("F16");
    reveal_strlit("F32");
    reveal_strlit("BF16");
    assert("F16"@[1] != "F32"@[1]);
    assert("F16"@.len() != "BF16"@.len());
    let h = data[2 * j] + 256 * data[2 * j + 1];
    assert(le16(data, j) == h);
    let (s, e, m) = (h / 0x8000, (h / 0x400) % 32, h % 0x400);
    assert(0 <= h < 0x1_0000);
    assert(0 <= s <= 1);
    if 1 <= e <= 30 {
        lemma_fields(s, e + 112, m * 0x2000);
    }
    if e == 31 && m == 0 {
        lemma_fields(s, 255, 0);
    }
    if e == 31 && m != 0 {
        lemma_fields(0, 255, 0x40_0000);
    }
    if e == 0 && m > 0 {
        lemma_normalize_value(m as nat, 0);
        let (mm, d) = normalize(m as nat, 0);
        let pd = vstd::arithmetic::power2::pow2(d);
        assert(mm == m * pd);
        vstd::arithmetic::power2::lemma_pow2_pos(d);
        vstd::arithmetic::power2::lemma2_to64();
        if d == 0 {
            assert(pd == vstd::arithmetic::power2::pow2(0));
            assert(pd == 1);
            assert(mm == m * 1);
        }
        assert(m * pd >= pd) by (nonlinear_arith)
            requires
                m >= 1,
                pd > 0,
        {}
        vstd::arithmetic::power2::lemma2_to64();
        if d >= 11 {
            if d > 11 {
                vstd::arithmetic::power2::lemma_pow2_strictly_increases(11, d);
            }
        }
        assert(d <= 10);
        assert(d >= 1);
        lemma_fields(s, 113 - d, (mm - 1024) * 0x2000);
        vstd::arithmetic::power2::lemma_pow2_adds(d, 13);
        assert(0x80_0000 + (mm - 1024) * 0x2000 == mm * 0x2000);
        assert(mm * 0x2000 == m * (pd * 0x2000)) by (nonlinear_arith)
            requires
                mm == m * pd,
        {}
        assert((126 - (113 - d)) as nat == d + 13);
    }
}

/// BF16 decoding widens each half-width word exactly: the decoded `f32`
/// bits are the BF16 word (little-endian) in the upper sixteen bits, with
/// zero below.
pub proof fn law_bf16_widens(data: Seq<u8>, j: int)
    requires
        0 <= j < data.len() / 2,
    ensures
        decode_elements("BF16"@, data) matches Some(bits) && bits.len() == data.len() / 2 && bits[j]
            as int / 0x1_0000 == data[2 * j] + 256 * data[2 * j + 1] && bits[j] as int % 0x1_0000
            == 0,
{
    reveal_strlit("F32");
    reveal_strlit("BF16");
    assert("BF16"@.len() != "F32"@.len());
    let h = data[2 * j] + 256 * data[2 * j + 1];
    assert(le16(data, j) == h);
    assert(0 <= h < 0x1_0000);
    assert((h * 65536) as u32 == h * 65536);
}

/// F32 decoding keeps each word as it is: the decoded bits are the four
/// bytes at `4 * j`, little-endian.
pub proof fn law_f32_as_is(data: Seq<u8>, j: int)
    requires
        0 <= j < data.len() / 4,
    ensures
        decode_elements("F32"@, data) matches Some(bits) && bits.len() == data.len() / 4 && bits[j]
            as int == data[4 * j] + 0x100 * data[4 * j + 1] + 0x1_0000 * data[4 * j + 2] + 0x100_0000
            * data[4 * j + 3],
{
}

} // verus!
