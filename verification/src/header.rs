//! What the engine reads of a model file's header.
//!
//! The header is handed over as plain values: scoped metadata, and one
//! record per tensor. A metadata value says what it reads as; reals are kept
//! as the bits of a 32-bit float.

use vstd::prelude::*;

use crate::text;

verus! {

/// One scalar, in each reading it supports.
#[derive(Clone, Copy, Debug, PartialEq, Eq, Structural)]
pub struct MetaItem {
    /// The value as an unsigned integer.
    pub num: Option<u64>,
    /// The value as a real, in 32-bit float bits.
    pub bits: Option<u32>,
    /// The value as a flag.
    pub flag: Option<bool>,
}

/// A metadata value: a scalar, or a list of scalars.
pub struct MetaValue {
    pub item: MetaItem,
    pub list: Option<Vec<MetaItem>>,
}

/// A metadata value under its key, without the architecture prefix.
pub struct MetaEntry {
    pub key: String,
    pub value: MetaValue,
}

/// Element encodings of a tensor.
#[derive(Clone, Copy, Debug, PartialEq, Eq, Structural)]
pub enum TensorType {
    F32,
    F16,
    BF16,
    Q4_0,
    Q5_1,
    Q8_0,
    Q2K,
    Q3K,
    Q4K,
    Q5K,
    Q6K,
    IQ1S,
    IQ2XXS,
    IQ2XS,
    IQ2S,
    IQ3XXS,
    IQ3S,
    IQ4NL,
    IQ4XS,
    MXFP4,
    Other,
}

/// One tensor: its place in the file and its sizes.
pub struct TensorInfo {
    pub name: String,
    pub ty: TensorType,
    pub dims: Vec<u64>,
    /// Offset from the start of the data section.
    pub offset: u64,
    pub n_elements: u64,
    /// Bytes of the whole tensor, where the encoding has a known layout.
    pub byte_size: Option<u64>,
    /// Bytes of one row, where the encoding has a known layout.
    pub row_bytes: Option<u64>,
}

/// A parsed model header.
pub struct Header {
    pub architecture: Option<String>,
    pub meta: Vec<MetaEntry>,
    /// Length of the tokenizer's token list, where there is one.
    pub n_tokens: Option<usize>,
    pub tensors: Vec<TensorInfo>,
    /// Where the data section starts in the file.
    pub data_offset: u64,
}

/// Position of the first entry with this key.
pub open spec fn find_key(meta: Seq<MetaEntry>, key: Seq<char>) -> Option<int>
    decreases meta.len(),
{
    if meta.len() == 0 {
        None
    } else if let Some(i) = find_key(meta.drop_last(), key) {
        Some(i)
    } else if meta.last().key@ == key {
        Some(meta.len() - 1)
    } else {
        None
    }
}

/// Position of the first tensor with this name.
pub open spec fn find_name(ts: Seq<TensorInfo>, name: Seq<char>) -> Option<int>
    decreases ts.len(),
{
    if ts.len() == 0 {
        None
    } else if let Some(i) = find_name(ts.drop_last(), name) {
        Some(i)
    } else if ts.last().name@ == name {
        Some(ts.len() - 1)
    } else {
        None
    }
}

proof fn lemma_find_key_prefix(meta: Seq<MetaEntry>, key: Seq<char>, n: int)
    requires
        0 <= n <= meta.len(),
        find_key(meta.take(n), key) is Some,
    ensures
        find_key(meta, key) == find_key(meta.take(n), key),
    decreases meta.len(),
{
    if n == meta.len() {
        assert(meta.take(n) =~= meta);
    } else {
        assert(meta.drop_last().take(n) =~= meta.take(n));
        lemma_find_key_prefix(meta.drop_last(), key, n);
    }
}

proof fn lemma_find_name_prefix(ts: Seq<TensorInfo>, name: Seq<char>, n: int)
    requires
        0 <= n <= ts.len(),
        find_name(ts.take(n), name) is Some,
    ensures
        find_name(ts, name) == find_name(ts.take(n), name),
    decreases ts.len(),
{
    if n == ts.len() {
        assert(ts.take(n) =~= ts);
    } else {
        assert(ts.drop_last().take(n) =~= ts.take(n));
        lemma_find_name_prefix(ts.drop_last(), name, n);
    }
}

/// Largest integer reading in a list.
pub open spec fn max_num(list: Seq<MetaItem>) -> Option<u64>
    decreases list.len(),
{
    if list.len() == 0 {
        None
    } else {
        match (max_num(list.drop_last()), list.last().num) {
            (Some(a), Some(b)) => if b >= a { Some(b) } else { Some(a) },
            (None, b) => b,
            (a, None) => a,
        }
    }
}

/// The largest integer reading in a list.
pub fn largest(list: &Vec<MetaItem>) -> (r: Option<u64>)
    ensures
        r == max_num(list@),
{
    let mut best: Option<u64> = None;
    let mut i: usize = 0;
    assert(list@.take(0) =~= Seq::<MetaItem>::empty());
    while i < list.len()
        invariant
            i <= list@.len(),
            best == max_num(list@.take(i as int)),
        decreases list@.len() - i,
    {
        proof {
            assert(list@.take(i + 1).drop_last() =~= list@.take(i as int));
            assert(list@.take(i + 1).last() == list@[i as int]);
        }
        match list[i].num {
            Some(b) => {
                best = match best {
                    Some(a) => if b >= a { Some(b) } else { Some(a) },
                    None => Some(b),
                };
            },
            None => {},
        }
        i = i + 1;
    }
    assert(list@.take(i as int) =~= list@);
    best
}

/// `n` cut to its low 32 bits.
pub open spec fn low32(n: u64) -> u32 {
    (n % 0x1_0000_0000) as u32
}

/// The low 32 bits of `n`.
pub fn cut32(n: u64) -> (r: u32)
    ensures
        r == low32(n),
{
    (n % 0x1_0000_0000) as u32
}

impl Header {
    /// The value under `key`.
    pub open spec fn value(&self, key: Seq<char>) -> Option<MetaValue> {
        match find_key(self.meta@, key) {
            Some(i) => Some(self.meta@[i].value),
            None => None,
        }
    }

    /// The value under `key` as an unsigned integer.
    pub open spec fn num(&self, key: Seq<char>) -> Option<u64> {
        match self.value(key) {
            Some(v) => v.item.num,
            None => None,
        }
    }

    /// The value under `key` as an unsigned integer cut to 32 bits.
    pub open spec fn num32(&self, key: Seq<char>) -> Option<u32> {
        match self.num(key) {
            Some(n) => Some(low32(n)),
            None => None,
        }
    }

    pub open spec fn num32_or(&self, key: Seq<char>, d: u32) -> u32 {
        match self.num32(key) {
            Some(n) => n,
            None => d,
        }
    }

    /// The value under `key` as a real, in float bits.
    pub open spec fn bits(&self, key: Seq<char>) -> Option<u32> {
        match self.value(key) {
            Some(v) => v.item.bits,
            None => None,
        }
    }

    pub open spec fn bits_or(&self, key: Seq<char>, d: u32) -> u32 {
        match self.bits(key) {
            Some(n) => n,
            None => d,
        }
    }

    /// The value under `key` as a list.
    pub open spec fn list(&self, key: Seq<char>) -> Option<Seq<MetaItem>> {
        match self.value(key) {
            Some(v) => match v.list {
                Some(l) => Some(l@),
                None => None,
            },
            None => None,
        }
    }

    /// The tensor of this name.
    pub open spec fn tensor_named(&self, name: Seq<char>) -> Option<TensorInfo> {
        match find_name(self.tensors@, name) {
            Some(i) => Some(self.tensors@[i]),
            None => None,
        }
    }

    pub open spec fn arch(&self) -> Option<Seq<char>> {
        match self.architecture {
            Some(a) => Some(a@),
            None => None,
        }
    }

    /// Look a metadata value up.
    pub fn arch_meta(&self, key: &str) -> (r: Option<&MetaValue>)
        ensures
            match r {
                Some(v) => self.value(key@) == Some(*v),
                None => self.value(key@) is None,
            },
    {
        let mut i: usize = 0;
        assert(self.meta@.take(0) =~= Seq::<MetaEntry>::empty());
        while i < self.meta.len()
            invariant
                i <= self.meta@.len(),
                find_key(self.meta@.take(i as int), key@) is None,
            decreases self.meta@.len() - i,
        {
            proof {
                assert(self.meta@.take(i + 1).drop_last() =~= self.meta@.take(i as int));
                assert(self.meta@.take(i + 1).last() == self.meta@[i as int]);
            }
            if text::same(self.meta[i].key.as_str(), key) {
                proof {
                    lemma_find_key_prefix(self.meta@, key@, i + 1);
                }
                return Some(&self.meta[i].value);
            }
            i = i + 1;
        }
        assert(self.meta@.take(i as int) =~= self.meta@);
        None
    }

    /// Look an unsigned integer up.
    pub fn get_num(&self, key: &str) -> (r: Option<u64>)
        ensures
            r == self.num(key@),
    {
        match self.arch_meta(key) {
            Some(v) => v.item.num,
            None => None,
        }
    }

    /// Look an unsigned integer up, cut to 32 bits.
    pub fn get_num32(&self, key: &str) -> (r: Option<u32>)
        ensures
            r == self.num32(key@),
    {
        match self.get_num(key) {
            Some(n) => Some(cut32(n)),
            None => None,
        }
    }

    /// Look an unsigned integer up, with a default.
    pub fn get_num32_or(&self, key: &str, d: u32) -> (r: u32)
        ensures
            r == self.num32_or(key@, d),
    {
        match self.get_num32(key) {
            Some(n) => n,
            None => d,
        }
    }

    /// Look a real up.
    pub fn get_bits(&self, key: &str) -> (r: Option<u32>)
        ensures
            r == self.bits(key@),
    {
        match self.arch_meta(key) {
            Some(v) => v.item.bits,
            None => None,
        }
    }

    /// Look a real up, with a default.
    pub fn get_bits_or(&self, key: &str, d: u32) -> (r: u32)
        ensures
            r == self.bits_or(key@, d),
    {
        match self.get_bits(key) {
            Some(n) => n,
            None => d,
        }
    }

    /// Look a list up.
    pub fn get_list(&self, key: &str) -> (r: Option<&Vec<MetaItem>>)
        ensures
            match r {
                Some(l) => self.list(key@) == Some(l@),
                None => self.list(key@) is None,
            },
    {
        match self.arch_meta(key) {
            Some(v) => match &v.list {
                Some(l) => Some(l),
                None => None,
            },
            None => None,
        }
    }

    /// Look a tensor up.
    pub fn tensor(&self, name: &str) -> (r: Option<&TensorInfo>)
        ensures
            match r {
                Some(t) => self.tensor_named(name@) == Some(*t),
                None => self.tensor_named(name@) is None,
            },
    {
        let mut i: usize = 0;
        assert(self.tensors@.take(0) =~= Seq::<TensorInfo>::empty());
        while i < self.tensors.len()
            invariant
                i <= self.tensors@.len(),
                find_name(self.tensors@.take(i as int), name@) is None,
            decreases self.tensors@.len() - i,
        {
            proof {
                assert(self.tensors@.take(i + 1).drop_last() =~= self.tensors@.take(i as int));
                assert(self.tensors@.take(i + 1).last() == self.tensors@[i as int]);
            }
            if text::same(self.tensors[i].name.as_str(), name) {
                proof {
                    lemma_find_name_prefix(self.tensors@, name@, i + 1);
                }
                return Some(&self.tensors[i]);
            }
            i = i + 1;
        }
        assert(self.tensors@.take(i as int) =~= self.tensors@);
        None
    }
}

/// Name of a per-layer tensor.
pub open spec fn blk_name(il: nat, part: Seq<char>) -> Seq<char> {
    "blk."@ + text::digits(il) + "."@ + part
}

/// Name of a per-layer tensor.
pub fn blk(il: u64, part: &str) -> (s: String)
    ensures
        s@ == blk_name(il as nat, part@),
{
    let mut s = String::from_str("blk.");
    text::push_decimal(&mut s, il);
    s.append(".");
    s.append(part);
    s
}

} // verus!
