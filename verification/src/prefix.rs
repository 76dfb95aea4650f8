//! Saved stream prefixes: the framing of the file.

use vstd::prelude::*;

use crate::bytes;
use crate::shape::{Family, Shape};

verus! {

/// What a prefix file must agree with.
#[derive(Clone, Copy, Debug, PartialEq, Eq, Structural)]
pub struct PrefixKey {
    pub n_exec_layer: u32,
    pub n_embd: u32,
    pub n_vocab: u32,
    pub ctx: u32,
    pub n_swa: u32,
    pub head_dim: u32,
    pub n_idx_dim: u32,
}

impl PrefixKey {
    /// The key of a run.
    pub fn of(s: &Shape, ctx: u32) -> (k: PrefixKey)
        ensures
            k == (PrefixKey {
                n_exec_layer: s.n_exec_layer,
                n_embd: s.n_embd,
                n_vocab: s.n_vocab,
                ctx,
                n_swa: s.n_swa,
                head_dim: s.head_dim,
                n_idx_dim: s.n_idx_dim,
            }),
    {
        PrefixKey {
            n_exec_layer: s.n_exec_layer,
            n_embd: s.n_embd,
            n_vocab: s.n_vocab,
            ctx,
            n_swa: s.n_swa,
            head_dim: s.head_dim,
            n_idx_dim: s.n_idx_dim,
        }
    }

    /// The key's numbers in file order.
    pub open spec fn nums(&self) -> Seq<u32> {
        seq![
            self.n_exec_layer,
            self.n_embd,
            self.n_vocab,
            self.ctx,
            self.n_swa,
            self.head_dim,
            self.n_idx_dim,
        ]
    }

    fn list(&self) -> (v: Vec<u32>)
        ensures
            v@ == self.nums(),
    {
        let mut v: Vec<u32> = Vec::new();
        v.push(self.n_exec_layer);
        v.push(self.n_embd);
        v.push(self.n_vocab);
        v.push(self.ctx);
        v.push(self.n_swa);
        v.push(self.head_dim);
        v.push(self.n_idx_dim);
        v
    }
}

/// The file's first bytes: `PLSRPFX2`.
pub open spec fn magic() -> Seq<u8> {
    seq![80u8, 76u8, 83u8, 82u8, 80u8, 70u8, 88u8, 50u8]
}

/// Each number in four bytes.
pub open spec fn words_bytes(v: Seq<u32>, n: int) -> Seq<u8>
    decreases n,
{
    if n <= 0 {
        Seq::empty()
    } else {
        words_bytes(v, n - 1) + bytes::le_bytes(v[n - 1] as nat, 4)
    }
}

/// The head of a prefix file: magic, key, length, tokens.
pub open spec fn head_bytes(k: &PrefixKey, hist: Seq<u32>) -> Seq<u8> {
    magic() + words_bytes(k.nums(), 7) + bytes::le_bytes(hist.len(), 8) + words_bytes(
        hist,
        hist.len() as int,
    )
}

fn push_words(out: &mut Vec<u8>, v: &Vec<u32>)
    ensures
        final(out)@ == old(out)@ + words_bytes(v@, v@.len() as int),
{
    let ghost start = out@;
    let mut i: usize = 0;
    assert(start + Seq::<u8>::empty() =~= start);
    while i < v.len()
        invariant
            i <= v@.len(),
            out@ == start + words_bytes(v@, i as int),
        decreases v@.len() - i,
    {
        bytes::push_le(out, v[i] as u64, 4);
        assert(out@ =~= start + words_bytes(v@, i + 1));
        i = i + 1;
    }
}

/// The head of a prefix file.
pub fn write_head(k: &PrefixKey, hist: &Vec<u32>) -> (out: Vec<u8>)
    ensures
        out@ == head_bytes(k, hist@),
{
    let mut out: Vec<u8> = Vec::new();
    out.push(80);
    out.push(76);
    out.push(83);
    out.push(82);
    out.push(80);
    out.push(70);
    out.push(88);
    out.push(50);
    assert(out@ =~= magic());
    let list = k.list();
    push_words(&mut out, &list);
    bytes::push_le(&mut out, hist.len() as u64, 8);
    push_words(&mut out, hist);
    out
}

/// Why a prefix file is refused.
#[derive(Clone, Copy, Debug, PartialEq, Eq, Structural)]
pub enum PrefixError {
    /// It does not start with the magic.
    Magic,
    /// It belongs to another model or context length.
    Mismatch,
    /// A section is larger than the buffer it belongs in.
    TooLarge,
    /// It ends early.
    Short,
    /// Streams of this family are not saved.
    Family,
}

impl PrefixError {
    /// The message of a refusal; a file that ends early has none.
    pub open spec fn text(self) -> Option<Seq<char>> {
        match self {
            PrefixError::Magic => Some("prefix file: bad magic"@),
            PrefixError::Mismatch => Some("prefix file: shape/ctx mismatch"@),
            PrefixError::TooLarge => Some("prefix file: cache larger than allocation"@),
            PrefixError::Short => None,
            PrefixError::Family => Some("prefix persist: dsv4 only"@),
        }
    }

    /// The message of a refusal.
    pub fn message(self) -> (m: Option<&'static str>)
        ensures
            match m {
                Some(t) => self.text() == Some(t@),
                None => self.text() is None,
            },
    {
        match self {
            PrefixError::Magic => Some("prefix file: bad magic"),
            PrefixError::Mismatch => Some("prefix file: shape/ctx mismatch"),
            PrefixError::TooLarge => Some("prefix file: cache larger than allocation"),
            PrefixError::Short => None,
            PrefixError::Family => Some("prefix persist: dsv4 only"),
        }
    }
}

/// The numbers stored from `at` on.
pub open spec fn words_at(b: Seq<u8>, at: int, n: nat) -> Seq<u32> {
    Seq::new(
        n,
        |i: int| bytes::le_value(b.subrange(at + i * 4, at + i * 4 + 4)) as u32,
    )
}

/// Length of the stored history.
pub open spec fn hist_len(b: Seq<u8>) -> nat {
    bytes::le_value(b.subrange(36, 44))
}

/// What keeps the head of a file from being read.
pub open spec fn head_error(b: Seq<u8>, k: &PrefixKey) -> Option<PrefixError> {
    if b.len() < 8 || b.take(8) != magic() {
        Some(PrefixError::Magic)
    } else if b.len() < 36 {
        Some(PrefixError::Short)
    } else if words_at(b, 8, 7) != k.nums() {
        Some(PrefixError::Mismatch)
    } else if b.len() < 44 || b.len() < 44 + hist_len(b) * 4 {
        Some(PrefixError::Short)
    } else {
        None
    }
}

fn read_words(b: &Vec<u8>, at: usize, n: usize) -> (v: Vec<u32>)
    requires
        at + n * 4 <= b@.len(),
    ensures
        v@ == words_at(b@, at as int, n as nat),
{
    let mut v: Vec<u32> = Vec::new();
    let len: usize = b.len();
    let mut i: usize = 0;
    while i < n
        invariant
            i <= n,
            at + n * 4 <= len,
            len == b@.len(),
            v@ =~= words_at(b@, at as int, n as nat).take(i as int),
        decreases n - i,
    {
        let x: u64 = bytes::read_le(b, at + i * 4, 4);
        proof {
            bytes::lemma_le_bound(b@.subrange(at + i * 4, at + i * 4 + 4));
            bytes::lemma_byte_ranges();
        }
        v.push(x as u32);
        i = i + 1;
    }
    assert(v@ =~= words_at(b@, at as int, n as nat));
    v
}

fn starts_with_magic(b: &Vec<u8>) -> (r: bool)
    ensures
        r == (b@.len() >= 8 && b@.take(8) == magic()),
{
    if b.len() < 8 {
        return false;
    }
    let r: bool = b[0] == 80 && b[1] == 76 && b[2] == 83 && b[3] == 82 && b[4] == 80 && b[5] == 70
        && b[6] == 88 && b[7] == 50;
    proof {
        let t = b@.take(8);
        if r {
            assert(t =~= magic());
        } else if t == magic() {
            assert(t[0] == 80 && t[1] == 76 && t[2] == 83 && t[3] == 82 && t[4] == 80 && t[5] == 70
                && t[6] == 88 && t[7] == 50);
        }
    }
    r
}

fn same_words(a: &Vec<u32>, b: &Vec<u32>) -> (r: bool)
    ensures
        r == (a@ == b@),
{
    if a.len() != b.len() {
        return false;
    }
    let mut i: usize = 0;
    while i < a.len()
        invariant
            i <= a@.len(),
            a@.len() == b@.len(),
            forall|k: int| 0 <= k < i ==> a@[k] == b@[k],
        decreases a@.len() - i,
    {
        if a[i] != b[i] {
            return false;
        }
        i = i + 1;
    }
    assert(a@ =~= b@);
    true
}

/// The history of a prefix file, and where its sections start.
pub fn read_head(b: &Vec<u8>, k: &PrefixKey) -> (r: Result<(Vec<u32>, usize), PrefixError>)
    ensures
        match r {
            Ok((hist, at)) => head_error(b@, k) is None && hist@ == words_at(b@, 44, hist_len(b@))
                && at == 44 + hist_len(b@) * 4,
            Err(e) => head_error(b@, k) == Some(e),
        },
{
    if !starts_with_magic(b) {
        return Err(PrefixError::Magic);
    }
    if b.len() < 36 {
        return Err(PrefixError::Short);
    }
    let got = read_words(b, 8, 7);
    let want = k.list();
    if !same_words(&got, &want) {
        return Err(PrefixError::Mismatch);
    }
    if b.len() < 44 {
        return Err(PrefixError::Short);
    }
    let nh: u64 = bytes::read_le(b, 36, 8);
    if nh > ((b.len() - 44) / 4) as u64 {
        return Err(PrefixError::Short);
    }
    let hist = read_words(b, 44, nh as usize);
    Ok((hist, 44 + nh as usize * 4))
}

/// One section: its length, then its bytes.
pub open spec fn section_bytes(data: Seq<u8>) -> Seq<u8> {
    bytes::le_bytes(data.len(), 8) + data
}

fn push_all(out: &mut Vec<u8>, data: &Vec<u8>)
    ensures
        final(out)@ == old(out)@ + data@,
{
    let ghost start = out@;
    let mut i: usize = 0;
    assert(start + data@.take(0) =~= start);
    while i < data.len()
        invariant
            i <= data@.len(),
            out@ =~= start + data@.take(i as int),
        decreases data@.len() - i,
    {
        out.push(data[i]);
        i = i + 1;
    }
    assert(out@ =~= start + data@);
}

/// Append a section.
pub fn put_section(out: &mut Vec<u8>, data: &Vec<u8>)
    ensures
        final(out)@ == old(out)@ + section_bytes(data@),
{
    let ghost start = out@;
    bytes::push_le(out, data.len() as u64, 8);
    push_all(out, data);
    assert(out@ =~= start + section_bytes(data@));
}

/// Length of the section at `at`.
pub open spec fn section_len(b: Seq<u8>, at: int) -> nat {
    bytes::le_value(b.subrange(at, at + 8))
}

/// What keeps a section from being taken into a buffer of `room` bytes.
pub open spec fn section_error(b: Seq<u8>, at: int, room: int) -> Option<PrefixError> {
    if b.len() < at + 8 {
        Some(PrefixError::Short)
    } else if section_len(b, at) > room {
        Some(PrefixError::TooLarge)
    } else if b.len() < at + 8 + section_len(b, at) {
        Some(PrefixError::Short)
    } else {
        None
    }
}

/// Where the section at `at` starts and ends, for a buffer of `room` bytes.
pub fn take_section(b: &Vec<u8>, at: usize, room: usize) -> (r: Result<(usize, usize), PrefixError>)
    requires
        at <= b@.len(),
    ensures
        match r {
            Ok((lo, hi)) => section_error(b@, at as int, room as int) is None && lo == at + 8 && hi
                == lo + section_len(b@, at as int),
            Err(e) => section_error(b@, at as int, room as int) == Some(e),
        },
{
    let n: usize = b.len();
    if n - at < 8 {
        return Err(PrefixError::Short);
    }
    let len: u64 = bytes::read_le(b, at, 8);
    if len > room as u64 {
        return Err(PrefixError::TooLarge);
    }
    if len > (n - at - 8) as u64 {
        return Err(PrefixError::Short);
    }
    Ok((at + 8, at + 8 + len as usize))
}

/// The bytes of several buffers.
pub open spec fn contents(v: Seq<Vec<u8>>) -> Seq<Seq<u8>> {
    Seq::new(v.len(), |i: int| v[i]@)
}

/// The first `n` buffers, each as a section.
pub open spec fn sections_bytes(caches: Seq<Seq<u8>>, n: int) -> Seq<u8>
    decreases n,
{
    if n <= 0 {
        Seq::empty()
    } else {
        sections_bytes(caches, n - 1) + section_bytes(caches[n - 1])
    }
}

/// A checkpoint as it is saved: its position, and the runtime's own bytes.
pub struct SavedCkpt {
    pub pos: u32,
    pub state: Vec<u8>,
}

/// The first `n` checkpoints, each behind its position.
pub open spec fn ckpts_bytes(cks: Seq<SavedCkpt>, n: int) -> Seq<u8>
    decreases n,
{
    if n <= 0 {
        Seq::empty()
    } else {
        ckpts_bytes(cks, n - 1) + (bytes::le_bytes(cks[n - 1].pos as nat, 4) + cks[n - 1].state@)
    }
}

/// A whole file: head, the runtime's layers, the caches, the checkpoints.
pub open spec fn file_bytes(
    k: &PrefixKey,
    hist: Seq<u32>,
    layers: Seq<u8>,
    caches: Seq<Seq<u8>>,
    cks: Seq<SavedCkpt>,
) -> Seq<u8> {
    head_bytes(k, hist) + layers + sections_bytes(caches, caches.len() as int) + bytes::le_bytes(
        cks.len(),
        4,
    ) + ckpts_bytes(cks, cks.len() as int)
}

/// The file of a stream: what the runtime wrote of its layers, every layer's
/// three caches in turn, and the checkpoints. Only one family is saved.
pub fn save_prefix(
    family: Family,
    k: &PrefixKey,
    hist: &Vec<u32>,
    layers: &Vec<u8>,
    caches: &Vec<Vec<u8>>,
    cks: &Vec<SavedCkpt>,
) -> (r: Result<Vec<u8>, PrefixError>)
    requires
        cks@.len() <= u32::MAX,
    ensures
        match r {
            Ok(b) => family == Family::Dsv4 && b@ == file_bytes(
                k,
                hist@,
                layers@,
                contents(caches@),
                cks@,
            ),
            Err(e) => family != Family::Dsv4 && e == PrefixError::Family,
        },
{
    if family != Family::Dsv4 {
        return Err(PrefixError::Family);
    }
    let mut out = write_head(k, hist);
    push_all(&mut out, layers);
    let ghost start = out@;
    let ghost all = contents(caches@);
    let mut i: usize = 0;
    assert(start + sections_bytes(all, 0) =~= start);
    while i < caches.len()
        invariant
            i <= caches@.len(),
            all == contents(caches@),
            out@ == start + sections_bytes(all, i as int),
        decreases caches@.len() - i,
    {
        put_section(&mut out, &caches[i]);
        assert(out@ =~= start + sections_bytes(all, i + 1));
        i = i + 1;
    }
    bytes::push_le(&mut out, cks.len() as u64, 4);
    let ghost mid = out@;
    let mut j: usize = 0;
    assert(mid + ckpts_bytes(cks@, 0) =~= mid);
    while j < cks.len()
        invariant
            j <= cks@.len(),
            out@ == mid + ckpts_bytes(cks@, j as int),
        decreases cks@.len() - j,
    {
        bytes::push_le(&mut out, cks[j].pos as u64, 4);
        push_all(&mut out, &cks[j].state);
        assert(out@ =~= mid + ckpts_bytes(cks@, j + 1));
        j = j + 1;
    }
    assert(out@ =~= file_bytes(k, hist@, layers@, all, cks@));
    Ok(out)
}

/// Where section `n` starts, the first at `at`.
pub open spec fn section_at(b: Seq<u8>, at: int, n: int) -> int
    decreases n,
{
    if n <= 0 {
        at
    } else {
        section_at(b, at, n - 1) + 8 + section_len(b, section_at(b, at, n - 1))
    }
}

/// What keeps the first `n` sections from being taken into their buffers.
pub open spec fn caches_error(b: Seq<u8>, at: int, rooms: Seq<usize>, n: int) -> Option<PrefixError>
    decreases n,
{
    if n <= 0 {
        None
    } else if caches_error(b, at, rooms, n - 1) is Some {
        caches_error(b, at, rooms, n - 1)
    } else {
        section_error(b, section_at(b, at, n - 1), rooms[n - 1] as int)
    }
}

proof fn lemma_first_error(b: Seq<u8>, at: int, rooms: Seq<usize>, i: int, n: int)
    requires
        0 <= i <= n,
        caches_error(b, at, rooms, i) is Some,
    ensures
        caches_error(b, at, rooms, n) == caches_error(b, at, rooms, i),
    decreases n,
{
    if i < n {
        lemma_first_error(b, at, rooms, i, n - 1);
    }
}

/// Where the bytes of every cache lie, and where the checkpoints start.
pub fn take_caches(b: &Vec<u8>, at: usize, rooms: &Vec<usize>) -> (r: Result<
    (Vec<(usize, usize)>, usize),
    PrefixError,
>)
    requires
        at <= b@.len(),
    ensures
        match r {
            Ok((v, end)) => {
                &&& caches_error(b@, at as int, rooms@, rooms@.len() as int) is None
                &&& v@.len() == rooms@.len()
                &&& forall|i: int|
                    0 <= i < v@.len() ==> (#[trigger] v@[i]).0 == section_at(b@, at as int, i) + 8
                        && v@[i].1 == section_at(b@, at as int, i + 1)
                &&& end == section_at(b@, at as int, rooms@.len() as int)
                &&& end <= b@.len()
            },
            Err(e) => caches_error(b@, at as int, rooms@, rooms@.len() as int) == Some(e),
        },
{
    let mut v: Vec<(usize, usize)> = Vec::new();
    let mut next: usize = at;
    let mut i: usize = 0;
    while i < rooms.len()
        invariant
            i <= rooms@.len(),
            v@.len() == i,
            next <= b@.len(),
            next == section_at(b@, at as int, i as int),
            caches_error(b@, at as int, rooms@, i as int) is None,
            forall|j: int|
                0 <= j < i ==> (#[trigger] v@[j]).0 == section_at(b@, at as int, j) + 8 && v@[j].1
                    == section_at(b@, at as int, j + 1),
        decreases rooms@.len() - i,
    {
        match take_section(b, next, rooms[i]) {
            Ok((lo, hi)) => {
                v.push((lo, hi));
                next = hi;
            },
            Err(e) => {
                proof {
                    assert(caches_error(b@, at as int, rooms@, i + 1) == Some(e));
                    lemma_first_error(b@, at as int, rooms@, i + 1, rooms@.len() as int);
                }
                return Err(e);
            },
        }
        i = i + 1;
    }
    Ok((v, next))
}

/// The number stored at `at`, and where it ends.
pub fn take_word(b: &Vec<u8>, at: usize) -> (r: Result<(u32, usize), PrefixError>)
    requires
        at <= b@.len(),
    ensures
        match r {
            Ok((w, end)) => b@.len() >= at + 4 && w == bytes::le_value(
                b@.subrange(at as int, at + 4),
            ) && end == at + 4,
            Err(e) => b@.len() < at + 4 && e == PrefixError::Short,
        },
{
    if b.len() - at < 4 {
        return Err(PrefixError::Short);
    }
    let x: u64 = bytes::read_le(b, at, 4);
    proof {
        bytes::lemma_le_bound(b@.subrange(at as int, at + 4));
        bytes::lemma_byte_ranges();
    }
    Ok((x as u32, at + 4))
}

/// Where checkpoint `i` starts, with the first at `start` and `lens` bytes of
/// state in each.
pub open spec fn ckpt_at(start: int, lens: Seq<usize>, i: int) -> int
    decreases i,
{
    if i <= 0 {
        start
    } else {
        ckpt_at(start, lens, i - 1) + 4 + lens[i - 1]
    }
}

/// Number of checkpoints stored at `at`.
pub open spec fn ckpt_count(b: Seq<u8>, at: int) -> nat {
    bytes::le_value(b.subrange(at, at + 4))
}

/// What a runtime takes of a prefix file, beside what the file says itself:
/// the bytes of its layers, what each cache has room for, and the bytes of
/// state in each checkpoint.
pub struct Sizes {
    pub layers: usize,
    pub rooms: Vec<usize>,
    pub states: Vec<usize>,
}

/// Where the checkpoints of a prefix file start, behind their number.
pub open spec fn ckpts_start(b: Seq<u8>, s: &Sizes) -> int {
    section_at(b, 44 + hist_len(b) as int * 4 + s.layers, s.rooms@.len() as int) + 4
}

/// Why a prefix file is refused, if it is.
pub open spec fn file_error(b: Seq<u8>, k: &PrefixKey, s: &Sizes) -> Option<PrefixError> {
    let at = 44 + hist_len(b) as int * 4 + s.layers;
    let n = s.rooms@.len() as int;
    let start = ckpts_start(b, s);
    let count = ckpt_count(b, start - 4) as int;
    if head_error(b, k) is Some {
        head_error(b, k)
    } else if b.len() < at {
        Some(PrefixError::Short)
    } else if caches_error(b, at, s.rooms@, n) is Some {
        caches_error(b, at, s.rooms@, n)
    } else if b.len() < start || count > s.states@.len() || b.len() < ckpt_at(
        start,
        s.states@,
        count,
    ) {
        Some(PrefixError::Short)
    } else {
        None
    }
}

/// The parts of a prefix file: the history, and where everything else lies.
pub struct Loaded {
    pub hist: Vec<u32>,
    pub layers: (usize, usize),
    pub caches: Vec<(usize, usize)>,
    /// Position and state of each checkpoint.
    pub ckpts: Vec<(u32, usize, usize)>,
}

/// `l` holds the parts of the file `b`.
pub open spec fn is_loaded(b: Seq<u8>, s: &Sizes, l: &Loaded) -> bool {
    let from = 44 + hist_len(b) as int * 4;
    let at = from + s.layers;
    let start = ckpts_start(b, s);
    &&& l.hist@ == words_at(b, 44, hist_len(b))
    &&& l.layers == (from as usize, at as usize)
    &&& l.caches@.len() == s.rooms@.len()
    &&& forall|i: int|
        0 <= i < l.caches@.len() ==> (#[trigger] l.caches@[i]).0 == section_at(b, at, i) + 8
            && l.caches@[i].1 == section_at(b, at, i + 1)
    &&& l.ckpts@.len() == ckpt_count(b, start - 4)
    &&& forall|i: int|
        0 <= i < l.ckpts@.len() ==> {
            let c = ckpt_at(start, s.states@, i);
            &&& (#[trigger] l.ckpts@[i]).0 == bytes::le_value(b.subrange(c, c + 4))
            &&& l.ckpts@[i].1 == c + 4
            &&& l.ckpts@[i].2 == ckpt_at(start, s.states@, i + 1)
        }
}

proof fn lemma_ckpt_grows(start: int, lens: Seq<usize>, i: int, n: int)
    requires
        0 <= i <= n,
    ensures
        ckpt_at(start, lens, i) <= ckpt_at(start, lens, n),
    decreases n,
{
    if i < n {
        lemma_ckpt_grows(start, lens, i, n - 1);
    }
}

/// Read a prefix file: all of its parts, or why it is refused.
pub fn load_prefix(b: &Vec<u8>, k: &PrefixKey, s: &Sizes) -> (r: Result<Loaded, PrefixError>)
    ensures
        match r {
            Ok(l) => file_error(b@, k, s) is None && is_loaded(b@, s, &l),
            Err(e) => file_error(b@, k, s) == Some(e),
        },
{
    let (hist, from) = match read_head(b, k) {
        Ok(h) => h,
        Err(e) => {
            return Err(e);
        },
    };
    if b.len() - from < s.layers {
        return Err(PrefixError::Short);
    }
    let at: usize = from + s.layers;
    let (caches, next) = match take_caches(b, at, &s.rooms) {
        Ok(c) => c,
        Err(e) => {
            return Err(e);
        },
    };
    let (count, start) = match take_word(b, next) {
        Ok(w) => w,
        Err(e) => {
            return Err(e);
        },
    };
    if count as usize > s.states.len() {
        return Err(PrefixError::Short);
    }
    let ghost lens = s.states@;
    let mut ckpts: Vec<(u32, usize, usize)> = Vec::new();
    let mut c: usize = start;
    let mut i: usize = 0;
    while i < count as usize
        invariant
            i <= count <= lens.len(),
            lens == s.states@,
            c == ckpt_at(start as int, lens, i as int),
            c <= b@.len(),
            start == ckpts_start(b@, s),
            count == ckpt_count(b@, start - 4),
            at == 44 + hist_len(b@) * 4 + s.layers,
            head_error(b@, k) is None,
            at <= b@.len(),
            start <= b@.len(),
            caches_error(b@, at as int, s.rooms@, s.rooms@.len() as int) is None,
            ckpts@.len() == i,
            forall|j: int|
                0 <= j < i ==> {
                    let d = ckpt_at(start as int, lens, j);
                    &&& (#[trigger] ckpts@[j]).0 == bytes::le_value(b@.subrange(d, d + 4))
                    &&& ckpts@[j].1 == d + 4
                    &&& ckpts@[j].2 == ckpt_at(start as int, lens, j + 1)
                },
        decreases count - i,
    {
        proof {
            lemma_ckpt_grows(start as int, lens, i + 1, count as int);
        }
        let (pos, lo) = match take_word(b, c) {
            Ok(w) => w,
            Err(e) => {
                return Err(e);
            },
        };
        if b.len() - lo < s.states[i] {
            return Err(PrefixError::Short);
        }
        let hi: usize = lo + s.states[i];
        ckpts.push((pos, lo, hi));
        c = hi;
        i = i + 1;
    }
    Ok(Loaded { hist, layers: (from, at), caches, ckpts })
}

/// Bytes of a layer's compressed rows that are worth saving.
pub open spec fn comp_used(n_comp: int, head_dim: int, room: int) -> int {
    if n_comp * head_dim * 4 <= room {
        n_comp * head_dim * 4
    } else {
        room
    }
}

/// Bytes of a layer's compressed rows that are worth saving.
pub fn comp_bytes(n_comp: u32, head_dim: u32, room: usize) -> (n: usize)
    ensures
        n == comp_used(n_comp as int, head_dim as int, room as int),
{
    proof {
        assert(0 <= n_comp * head_dim <= 0xffff_ffff * 0xffff_ffff) by (nonlinear_arith)
            requires
                n_comp <= 0xffff_ffff,
                head_dim <= 0xffff_ffff,
        ;
    }
    let n: u128 = n_comp as u128 * head_dim as u128 * 4;
    if n <= room as u128 {
        n as usize
    } else {
        room
    }
}

/// Bytes of a layer's selection keys that are worth saving; a buffer of four
/// bytes or less is a placeholder.
pub open spec fn keys_used(hist: int, n_idx_dim: int, room: int) -> int {
    if room <= 4 {
        0
    } else if hist * n_idx_dim * 2 <= room {
        hist * n_idx_dim * 2
    } else {
        room
    }
}

/// Bytes of a layer's selection keys that are worth saving.
pub fn key_bytes(hist: usize, n_idx_dim: u32, room: usize) -> (n: usize)
    ensures
        n == keys_used(hist as int, n_idx_dim as int, room as int),
{
    if room <= 4 {
        return 0;
    }
    proof {
        assert(0 <= hist * n_idx_dim <= 0xffff_ffff_ffff_ffff * 0xffff_ffff) by (nonlinear_arith)
            requires
                hist <= 0xffff_ffff_ffff_ffff,
                n_idx_dim <= 0xffff_ffff,
        ;
    }
    let n: u128 = hist as u128 * n_idx_dim as u128 * 2;
    if n <= room as u128 {
        n as usize
    } else {
        room
    }
}

proof fn lemma_words_len(v: Seq<u32>, n: int)
    requires
        0 <= n <= v.len(),
    ensures
        words_bytes(v, n).len() == n * 4,
    decreases n,
{
    if n > 0 {
        lemma_words_len(v, n - 1);
        bytes::lemma_le_len(v[n - 1] as nat, 4);
    }
}

proof fn lemma_word_at(v: Seq<u32>, n: int, i: int)
    requires
        0 <= i < n <= v.len(),
    ensures
        words_bytes(v, n).len() == n * 4,
        words_bytes(v, n).subrange(i * 4, i * 4 + 4) == bytes::le_bytes(v[i] as nat, 4),
    decreases n,
{
    lemma_words_len(v, n);
    lemma_words_len(v, n - 1);
    bytes::lemma_le_len(v[n - 1] as nat, 4);
    let w = words_bytes(v, n);
    if i == n - 1 {
        assert(w.subrange(i * 4, i * 4 + 4) =~= bytes::le_bytes(v[i] as nat, 4));
    } else {
        lemma_word_at(v, n - 1, i);
        assert(w.subrange(i * 4, i * 4 + 4) =~= words_bytes(v, n - 1).subrange(i * 4, i * 4 + 4));
    }
}

proof fn lemma_words_round_trip(b: Seq<u8>, at: int, v: Seq<u32>)
    requires
        0 <= at,
        at + v.len() * 4 <= b.len(),
        b.subrange(at, at + v.len() * 4) == words_bytes(v, v.len() as int),
    ensures
        words_at(b, at, v.len()) == v,
{
    let w = words_bytes(v, v.len() as int);
    assert forall|i: int| 0 <= i < v.len() implies #[trigger] words_at(b, at, v.len())[i]
        == v[i] by {
        lemma_word_at(v, v.len() as int, i);
        assert(b.subrange(at + i * 4, at + i * 4 + 4) =~= w.subrange(i * 4, i * 4 + 4));
        bytes::lemma_byte_ranges();
        bytes::le_round_trip(v[i] as nat, 4);
    }
    assert(words_at(b, at, v.len()) =~= v);
}

/// A prefix that was written is accepted under the same key, whatever follows
/// its head, and gives the history back.
pub proof fn prefix_round_trip(k: &PrefixKey, hist: Seq<u32>, rest: Seq<u8>)
    requires
        hist.len() <= u64::MAX,
    ensures
        ({
            let b = head_bytes(k, hist) + rest;
            &&& head_error(b, k) is None
            &&& hist_len(b) == hist.len()
            &&& words_at(b, 44, hist_len(b)) == hist
        }),
{
    let b = head_bytes(k, hist) + rest;
    let n = hist.len() as int;
    lemma_words_len(k.nums(), 7);
    lemma_words_len(hist, n);
    bytes::lemma_byte_ranges();
    bytes::le_round_trip(hist.len(), 8);
    assert(b.take(8) =~= magic());
    assert(b.subrange(8, 36) =~= words_bytes(k.nums(), 7));
    lemma_words_round_trip(b, 8, k.nums());
    assert(b.subrange(36, 44) =~= bytes::le_bytes(hist.len(), 8));
    assert(b.subrange(44, 44 + n * 4) =~= words_bytes(hist, n));
    lemma_words_round_trip(b, 44, hist);
}

/// A prefix written under another key is refused.
pub proof fn other_key_is_refused(k: &PrefixKey, other: &PrefixKey, hist: Seq<u32>, rest: Seq<u8>)
    requires
        *k != *other,
    ensures
        head_error(head_bytes(k, hist) + rest, other) == Some(PrefixError::Mismatch),
{
    let b = head_bytes(k, hist) + rest;
    let n = hist.len() as int;
    lemma_words_len(k.nums(), 7);
    lemma_words_len(hist, n);
    bytes::lemma_le_len(hist.len(), 8);
    assert(b.take(8) =~= magic());
    assert(b.subrange(8, 36) =~= words_bytes(k.nums(), 7));
    lemma_words_round_trip(b, 8, k.nums());
    if k.nums() == other.nums() {
        assert(k.nums()[0] == other.nums()[0]);
        assert(k.nums()[1] == other.nums()[1]);
        assert(k.nums()[2] == other.nums()[2]);
        assert(k.nums()[3] == other.nums()[3]);
        assert(k.nums()[4] == other.nums()[4]);
        assert(k.nums()[5] == other.nums()[5]);
        assert(k.nums()[6] == other.nums()[6]);
    }
}

/// A section that was written is taken whole into any buffer it fits.
pub proof fn section_round_trip(before: Seq<u8>, data: Seq<u8>, rest: Seq<u8>, room: int)
    requires
        data.len() <= room,
        data.len() <= u64::MAX,
    ensures
        ({
            let b = before + section_bytes(data) + rest;
            let at = before.len() as int;
            &&& section_error(b, at, room) is None
            &&& b.subrange(at + 8, at + 8 + section_len(b, at)) == data
        }),
{
    let b = before + section_bytes(data) + rest;
    let at = before.len() as int;
    bytes::lemma_byte_ranges();
    bytes::le_round_trip(data.len(), 8);
    assert(b.subrange(at, at + 8) =~= bytes::le_bytes(data.len(), 8));
    assert(b.subrange(at + 8, at + 8 + data.len()) =~= data);
}

proof fn lemma_sections_len(caches: Seq<Seq<u8>>, n: int)
    requires
        0 <= n <= caches.len(),
    ensures
        n > 0 ==> sections_bytes(caches, n).len() == sections_bytes(caches, n - 1).len() + 8
            + caches[n - 1].len(),
{
    if n > 0 {
        bytes::lemma_le_len(caches[n - 1].len(), 8);
    }
}

/// The first `n` sections are where they were written, whatever stands around
/// them.
proof fn lemma_sections_read_back(
    before: Seq<u8>,
    caches: Seq<Seq<u8>>,
    rest: Seq<u8>,
    rooms: Seq<usize>,
    n: int,
)
    requires
        0 <= n <= caches.len(),
        rooms.len() == caches.len(),
        forall|i: int| 0 <= i < caches.len() ==> (#[trigger] caches[i]).len() <= rooms[i],
    ensures
        ({
            let b = before + sections_bytes(caches, n) + rest;
            let at = before.len() as int;
            &&& section_at(b, at, n) == at + sections_bytes(caches, n).len()
            &&& caches_error(b, at, rooms, n) is None
            &&& forall|i: int|
                0 <= i < n ==> b.subrange(section_at(b, at, i) + 8, section_at(b, at, i + 1))
                    == #[trigger] caches[i]
        }),
    decreases n,
{
    let b = before + sections_bytes(caches, n) + rest;
    let at = before.len() as int;
    if n > 0 {
        let tail = section_bytes(caches[n - 1]) + rest;
        assert(b =~= before + sections_bytes(caches, n - 1) + tail);
        lemma_sections_read_back(before, caches, tail, rooms, n - 1);
        lemma_sections_len(caches, n);
        let head = before + sections_bytes(caches, n - 1);
        assert(b =~= head + section_bytes(caches[n - 1]) + rest);
        section_round_trip(head, caches[n - 1], rest, rooms[n - 1] as int);
        bytes::lemma_byte_ranges();
        bytes::le_round_trip(caches[n - 1].len(), 8);
        assert(b.subrange(head.len() as int, head.len() as int + 8) =~= bytes::le_bytes(
            caches[n - 1].len(),
            8,
        ));
        assert(section_at(b, at, n - 1) == head.len());
    }
}

proof fn lemma_ckpts_grow(cks: Seq<SavedCkpt>, i: int, n: int)
    requires
        0 <= i <= n <= cks.len(),
    ensures
        ckpts_bytes(cks, i).len() <= ckpts_bytes(cks, n).len(),
        ckpts_bytes(cks, n).take(ckpts_bytes(cks, i).len() as int) == ckpts_bytes(cks, i),
    decreases n,
{
    if i < n {
        lemma_ckpts_grow(cks, i, n - 1);
        assert(ckpts_bytes(cks, n).take(ckpts_bytes(cks, i).len() as int) =~= ckpts_bytes(
            cks,
            n - 1,
        ).take(ckpts_bytes(cks, i).len() as int));
    } else {
        assert(ckpts_bytes(cks, n).take(ckpts_bytes(cks, i).len() as int) =~= ckpts_bytes(cks, i));
    }
}

/// What was saved is read back: the history under the same key, the runtime's
/// layers behind it, every cache into any buffer it fits, the number of the
/// checkpoints, and each checkpoint's position and bytes.
pub proof fn saved_prefix_reads_back(
    k: &PrefixKey,
    hist: Seq<u32>,
    layers: Seq<u8>,
    caches: Seq<Seq<u8>>,
    cks: Seq<SavedCkpt>,
    rooms: Seq<usize>,
)
    requires
        hist.len() <= u64::MAX,
        cks.len() <= u32::MAX,
        rooms.len() == caches.len(),
        forall|i: int| 0 <= i < caches.len() ==> (#[trigger] caches[i]).len() <= rooms[i],
    ensures
        ({
            let b = file_bytes(k, hist, layers, caches, cks);
            let n = caches.len() as int;
            let start: int = 44 + hist.len() as int * 4;
            let at: int = start + layers.len();
            let end = section_at(b, at, n);
            &&& head_error(b, k) is None
            &&& hist_len(b) == hist.len()
            &&& words_at(b, 44, hist_len(b)) == hist
            &&& b.subrange(start, at) == layers
            &&& caches_error(b, at, rooms, n) is None
            &&& forall|i: int|
                0 <= i < n ==> b.subrange(section_at(b, at, i) + 8, section_at(b, at, i + 1))
                    == #[trigger] caches[i]
            &&& end + 4 <= b.len()
            &&& bytes::le_value(b.subrange(end, end + 4)) == cks.len()
            &&& forall|i: int|
                0 <= i < cks.len() ==> {
                    let c = end + 4 + ckpts_bytes(cks, i).len();
                    let d = end + 4 + ckpts_bytes(cks, i + 1).len();
                    &&& c + 4 <= d <= b.len()
                    &&& bytes::le_value(b.subrange(c, c + 4)) == (#[trigger] cks[i]).pos
                    &&& b.subrange(c + 4, d) == cks[i].state@
                }
            &&& end + 4 + ckpts_bytes(cks, cks.len() as int).len() == b.len()
        }),
{
    let b = file_bytes(k, hist, layers, caches, cks);
    let n = caches.len() as int;
    let m = cks.len() as int;
    let secs = sections_bytes(caches, n);
    let count = bytes::le_bytes(cks.len(), 4);
    let tail = ckpts_bytes(cks, m);
    assert(b =~= head_bytes(k, hist) + (layers + secs + count + tail));
    prefix_round_trip(k, hist, layers + secs + count + tail);
    lemma_words_len(k.nums(), 7);
    lemma_words_len(hist, hist.len() as int);
    bytes::lemma_le_len(hist.len(), 8);
    let start: int = 44 + hist.len() as int * 4;
    assert(head_bytes(k, hist).len() == start);
    let before = head_bytes(k, hist) + layers;
    assert(b.subrange(start, start + layers.len()) =~= layers);
    assert(b =~= before + secs + (count + tail));
    lemma_sections_read_back(before, caches, count + tail, rooms, n);
    let at = before.len() as int;
    let end = section_at(b, at, n);
    assert(end == at + secs.len());
    bytes::lemma_byte_ranges();
    bytes::le_round_trip(cks.len(), 4);
    assert(b.subrange(end, end + 4) =~= count);
    assert forall|i: int| 0 <= i < m implies ({
        let c = end + 4 + ckpts_bytes(cks, i).len();
        let d = end + 4 + ckpts_bytes(cks, i + 1).len();
        &&& c + 4 <= d <= b.len()
        &&& bytes::le_value(b.subrange(c, c + 4)) == (#[trigger] cks[i]).pos
        &&& b.subrange(c + 4, d) == cks[i].state@
    }) by {
        let c = end + 4 + ckpts_bytes(cks, i).len();
        let d = end + 4 + ckpts_bytes(cks, i + 1).len();
        lemma_ckpts_grow(cks, i + 1, m);
        bytes::le_round_trip(cks[i].pos as nat, 4);
        let upto = ckpts_bytes(cks, i + 1);
        let from = ckpts_bytes(cks, i).len() as int;
        assert(tail.take(upto.len() as int) == upto);
        assert(b.subrange(c, c + 4) =~= tail.take(upto.len() as int).subrange(from, from + 4));
        assert(upto.subrange(from, from + 4) =~= bytes::le_bytes(cks[i].pos as nat, 4));
        assert(b.subrange(c + 4, d) =~= tail.take(upto.len() as int).subrange(
            from + 4,
            upto.len() as int,
        ));
        assert(upto.subrange(from + 4, upto.len() as int) =~= cks[i].state@);
    }
}

proof fn lemma_ckpt_spans(cks: Seq<SavedCkpt>, start: int, lens: Seq<usize>, n: int)
    requires
        0 <= n <= cks.len(),
        cks.len() <= lens.len(),
        forall|i: int| 0 <= i < cks.len() ==> lens[i] == (#[trigger] cks[i]).state@.len(),
    ensures
        ckpt_at(start, lens, n) == start + ckpts_bytes(cks, n).len(),
    decreases n,
{
    if n > 0 {
        lemma_ckpt_spans(cks, start, lens, n - 1);
        bytes::lemma_le_len(cks[n - 1].pos as nat, 4);
        assert(lens[n - 1] == cks[n - 1].state@.len());
    }
}

/// A saved prefix loads, under the key it was saved with, and every part
/// that was saved is where loading says it is.
pub proof fn saved_prefix_loads(
    k: &PrefixKey,
    hist: Seq<u32>,
    layers: Seq<u8>,
    caches: Seq<Seq<u8>>,
    cks: Seq<SavedCkpt>,
    s: &Sizes,
    l: &Loaded,
)
    requires
        hist.len() <= u64::MAX,
        cks.len() <= u32::MAX,
        file_bytes(k, hist, layers, caches, cks).len() <= usize::MAX,
        s.layers == layers.len(),
        s.rooms@.len() == caches.len(),
        forall|i: int| 0 <= i < caches.len() ==> (#[trigger] caches[i]).len() <= s.rooms@[i],
        cks.len() <= s.states@.len(),
        forall|i: int| 0 <= i < cks.len() ==> s.states@[i] == (#[trigger] cks[i]).state@.len(),
    ensures
        file_error(file_bytes(k, hist, layers, caches, cks), k, s) is None,
        is_loaded(file_bytes(k, hist, layers, caches, cks), s, l) ==> {
            let b = file_bytes(k, hist, layers, caches, cks);
            &&& l.hist@ == hist
            &&& b.subrange(l.layers.0 as int, l.layers.1 as int) == layers
            &&& l.caches@.len() == caches.len()
            &&& forall|i: int|
                0 <= i < caches.len() ==> b.subrange(
                    l.caches@[i].0 as int,
                    l.caches@[i].1 as int,
                ) == #[trigger] caches[i]
            &&& l.ckpts@.len() == cks.len()
            &&& forall|i: int|
                0 <= i < cks.len() ==> l.ckpts@[i].0 == (#[trigger] cks[i]).pos && b.subrange(
                    l.ckpts@[i].1 as int,
                    l.ckpts@[i].2 as int,
                ) == cks[i].state@
        },
{
    let b = file_bytes(k, hist, layers, caches, cks);
    saved_prefix_reads_back(k, hist, layers, caches, cks, s.rooms@);
    let n = caches.len() as int;
    let start = ckpts_start(b, s);
    lemma_ckpt_spans(cks, start, s.states@, cks.len() as int);
    lemma_words_len(k.nums(), 7);
    lemma_words_len(hist, hist.len() as int);
    bytes::lemma_le_len(hist.len(), 8);
    assert(44 + hist.len() as int * 4 + layers.len() <= b.len());
    if is_loaded(b, s, l) {
        assert forall|i: int| 0 <= i < cks.len() implies l.ckpts@[i].0 == (#[trigger] cks[i]).pos
            && b.subrange(l.ckpts@[i].1 as int, l.ckpts@[i].2 as int) == cks[i].state@ by {
            lemma_ckpt_spans(cks, start, s.states@, i);
            lemma_ckpt_spans(cks, start, s.states@, i + 1);
            assert(l.ckpts@[i].1 == ckpt_at(start, s.states@, i) + 4);
        }
        assert forall|i: int| 0 <= i < caches.len() implies b.subrange(
            l.caches@[i].0 as int,
            l.caches@[i].1 as int,
        ) == #[trigger] caches[i] by {
            assert(l.caches@[i].0 == section_at(b, 44 + hist.len() as int * 4 + layers.len(), i) + 8);
        }
    }
}

} // verus!
