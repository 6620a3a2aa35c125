//! NAL units and the two ways H.264/H.265 samples frame them: AVCC, where each
//! unit follows its length, and Annex-B, where each follows a start code.
use vstd::prelude::*;
use crate::shared_bytes::{bytes_view, bytes_copy_from_slice, bytes_from_vec, bytes_len, bytes_as_slice, bytes_clone};

verus! {

/// The four-byte Annex-B start code.
pub const START_CODE: [u8; 4] = [0, 0, 0, 1];

/// The four-byte Annex-B start code.
pub open spec fn start_code() -> Seq<u8> {
    seq![0u8, 0u8, 0u8, 1u8]
}

/// The value of bytes read as one big-endian unsigned number.
pub open spec fn be_value(s: Seq<u8>) -> nat
    decreases s.len(),
{
    if s.len() == 0 {
        0
    } else {
        (be_value(s.drop_last()) * 256 + s.last()) as nat
    }
}

/// 256 to the power `n`.
pub open spec fn pow256(n: nat) -> nat
    decreases n,
{
    if n == 0 {
        1
    } else {
        256 * pow256((n - 1) as nat)
    }
}

/// The units of an AVCC sample whose length prefixes are `n` bytes wide, read
/// front to back, and whether the whole sample was made of them. Reading stops
/// at the first prefix that is cut short or announces more bytes than follow.
pub open spec fn avcc_units(data: Seq<u8>, n: nat) -> (Seq<Seq<u8>>, bool)
    decreases data.len(),
{
    if data.len() == 0 {
        (seq![], true)
    } else if n == 0 || data.len() < n {
        (seq![], false)
    } else {
        let size = be_value(data.take(n as int));
        if n + size > data.len() {
            (seq![], false)
        } else {
            let rest = avcc_units(data.skip((n + size) as int), n);
            (seq![data.subrange(n as int, (n + size) as int)] + rest.0, rest.1)
        }
    }
}

/// Units in Annex-B framing: each one after a four-byte start code.
pub open spec fn annexb_join(units: Seq<Seq<u8>>) -> Seq<u8>
    decreases units.len(),
{
    if units.len() == 0 {
        seq![]
    } else {
        annexb_join(units.drop_last()) + start_code() + units.last()
    }
}

/// How long the start code at `i` is: 4 for `00 00 00 01`, 3 for `00 00 01`,
/// 0 when none starts there.
pub open spec fn start_code_len(data: Seq<u8>, i: int) -> int {
    if i + 4 <= data.len() && data[i] == 0 && data[i + 1] == 0 && data[i + 2] == 0 && data[i
        + 3] == 1 {
        4
    } else if i + 3 <= data.len() && data[i] == 0 && data[i + 1] == 0 && data[i + 2] == 1 {
        3
    } else {
        0
    }
}

/// The units of an Annex-B stream from `i` on, where `start` is where the unit
/// being read began: the non-empty runs of bytes between one start code and
/// the next, or the end.
pub open spec fn annexb_scan(data: Seq<u8>, i: int, start: Option<int>) -> Seq<Seq<u8>>
    decreases data.len() - i,
    when 0 <= i
{
    if i >= data.len() {
        if start is Some && start->0 < data.len() {
            seq![data.subrange(start->0, data.len() as int)]
        } else {
            seq![]
        }
    } else {
        let len = start_code_len(data, i);
        if len > 0 {
            let head = if start is Some && start->0 < i {
                seq![data.subrange(start->0, i)]
            } else {
                seq![]
            };
            head + annexb_scan(data, i + len, Some(i + len))
        } else {
            annexb_scan(data, i + 1, start)
        }
    }
}

/// The Annex-B units of a whole stream.
pub open spec fn annexb_units(data: Seq<u8>) -> Seq<Seq<u8>> {
    annexb_scan(data, 0, None)
}

pub proof fn lemma_annexb_join_push(units: Seq<Seq<u8>>, u: Seq<u8>)
    ensures
        annexb_join(units.push(u)) == annexb_join(units) + start_code() + u,
{
    assert(units.push(u).drop_last() =~= units);
}

/// Reads the `n`-byte big-endian length at `offset`.
fn read_prefix(data: &[u8], offset: usize, n: usize) -> (r: usize)
    requires
        1 <= n <= 4,
        offset + n <= data.len(),
    ensures
        r == be_value(data@.subrange(offset as int, offset + n)),
{
    let mut size: usize = 0;
    let mut j: usize = 0;
    while j < n
        invariant
            1 <= n <= 4,
            offset + n <= data.len(),
            j <= n,
            size == be_value(data@.subrange(offset as int, offset + j)),
            size < pow256(j as nat),
        decreases n - j,
    {
        assert(data@.subrange(offset as int, offset + j + 1).drop_last() =~= data@.subrange(
            offset as int,
            offset + j,
        ));
        assert(pow256(j as nat) <= 0x100_0000) by {
            reveal_with_fuel(pow256, 4);
        }
        size = size * 256 + data[offset + j] as usize;
        j = j + 1;
    }
    size
}

proof fn lemma_units_step(data: Seq<u8>, offset: int, n: nat, size: nat)
    requires
        n >= 1,
        0 <= offset,
        offset + n <= data.len(),
        size == be_value(data.subrange(offset, offset + n)),
    ensures
        offset + n + size <= data.len() ==> avcc_units(data.skip(offset), n) == (
            seq![data.subrange(offset + n, offset + n + size)] + avcc_units(
                data.skip(offset + n + size),
                n,
            ).0,
            avcc_units(data.skip(offset + n + size), n).1,
        ),
        offset + n + size > data.len() ==> avcc_units(data.skip(offset), n) == (
            Seq::<Seq<u8>>::empty(),
            false,
        ),
{
    let d = data.skip(offset);
    assert(d.take(n as int) =~= data.subrange(offset, offset + n));
    if offset + n + size <= data.len() {
        assert(d.skip((n + size) as int) =~= data.skip(offset + n + size));
        assert(d.subrange(n as int, (n + size) as int) =~= data.subrange(offset + n, offset + n + size));
    }
}

/// Rewrites a sample of four-byte length prefixes into Annex-B where it lies:
/// both forms are the same size. False on a malformed sample, which is then
/// left rewritten up to the unit that could not be read.
pub fn avcc_to_annexb_in_place(data: &mut [u8]) -> (r: bool)
    ensures
        r == avcc_units(old(data)@, 4).1,
        final(data)@.len() == old(data)@.len(),
        r ==> final(data)@ == annexb_join(avcc_units(old(data)@, 4).0),
        final(data)@ == annexb_join(avcc_units(old(data)@, 4).0) + old(data)@.skip(
            annexb_join(avcc_units(old(data)@, 4).0).len() as int,
        ),
{
    let ghost initial = data@;
    let ghost mut units: Seq<Seq<u8>> = seq![];
    let mut offset: usize = 0;
    proof {
        assert(initial.skip(0) =~= initial);
        assert(data@ =~= annexb_join(units) + initial.skip(0));
    }
    while offset < data.len()
        invariant
            initial == old(data)@,
            data@.len() == initial.len(),
            offset <= initial.len(),
            annexb_join(units).len() == offset,
            data@ == annexb_join(units) + initial.skip(offset as int),
            avcc_units(initial, 4) == (
                units + avcc_units(initial.skip(offset as int), 4).0,
                avcc_units(initial.skip(offset as int), 4).1,
            ),
        decreases initial.len() - offset,
    {
        if data.len() - offset < 4 {
            proof {
                assert(0 < initial.skip(offset as int).len() < 4);
                assert(avcc_units(initial.skip(offset as int), 4).1 == false);
                assert(units + Seq::<Seq<u8>>::empty() =~= units);
            }
            return false;
        }
        let end = offset + 4;
        let size = read_prefix(data, offset, 4);
        proof {
            assert(data@.subrange(offset as int, end as int) =~= initial.subrange(
                offset as int,
                end as int,
            ));
            lemma_units_step(initial, offset as int, 4, size as nat);
        }
        if size > data.len() - end {
            proof {
                assert(units + Seq::<Seq<u8>>::empty() =~= units);
            }
            return false;
        }
        data[offset] = 0;
        data[offset + 1] = 0;
        data[offset + 2] = 0;
        data[offset + 3] = 1;
        let ghost unit = initial.subrange(end as int, end + size);
        proof {
            lemma_annexb_join_push(units, unit);
            assert(units.push(unit) + avcc_units(initial.skip(end + size), 4).0 =~= units + (
            seq![unit] + avcc_units(initial.skip(end + size), 4).0));
            units = units.push(unit);
            assert(data@ =~= annexb_join(units) + initial.skip(end + size));
        }
        offset = end + size;
    }
    proof {
        assert(initial.skip(offset as int) =~= Seq::<u8>::empty());
        assert(units + Seq::<Seq<u8>>::empty() =~= units);
        assert(data@ =~= annexb_join(units));
    }
    true
}

/// Rewrites an AVCC sample, whose length prefixes are `length_size` bytes
/// wide, into Annex-B. Four-byte prefixes are rewritten where they lie;
/// shorter ones need a copy, as Annex-B is longer. None on a malformed sample
/// or a prefix width other than 1 to 4.
pub fn avcc_to_annexb(data: Vec<u8>, length_size: usize) -> (r: Option<Vec<u8>>)
    ensures
        (length_size == 0 || length_size > 4) ==> r is None,
        1 <= length_size <= 4 ==> (r is Some <==> avcc_units(data@, length_size as nat).1),
        r matches Some(v) ==> v@ == annexb_join(avcc_units(data@, length_size as nat).0),
{
    if length_size == 0 || length_size > 4 {
        return None;
    }
    if length_size == 4 {
        let mut data = data;
        let ok = avcc_to_annexb_in_place(data.as_mut_slice());
        if ok {
            return Some(data);
        } else {
            return None;
        }
    }
    let ghost initial = data@;
    let ghost n = length_size as nat;
    let ghost mut units: Seq<Seq<u8>> = seq![];
    let mut annexb: Vec<u8> = Vec::with_capacity(data.len());
    let mut offset: usize = 0;
    proof {
        assert(initial.skip(0) =~= initial);
        assert(units + avcc_units(initial, n).0 =~= avcc_units(initial, n).0);
    }
    while offset < data.len()
        invariant
            data@ == initial,
            1 <= length_size <= 3,
            n == length_size as nat,
            offset <= initial.len(),
            annexb@ == annexb_join(units),
            avcc_units(initial, n) == (
                units + avcc_units(initial.skip(offset as int), n).0,
                avcc_units(initial.skip(offset as int), n).1,
            ),
        decreases initial.len() - offset,
    {
        if data.len() - offset < length_size {
            proof {
                assert(0 < initial.skip(offset as int).len() < n);
                assert(avcc_units(initial.skip(offset as int), n).1 == false);
                assert(units + Seq::<Seq<u8>>::empty() =~= units);
            }
            return None;
        }
        let end = offset + length_size;
        let size = read_prefix(data.as_slice(), offset, length_size);
        proof {
            lemma_units_step(initial, offset as int, n, size as nat);
        }
        if size > data.len() - end {
            proof {
                assert(units + Seq::<Seq<u8>>::empty() =~= units);
            }
            return None;
        }
        let ghost unit = initial.subrange(end as int, end + size);
        let ghost before = annexb@;
        annexb.push(0);
        annexb.push(0);
        annexb.push(0);
        annexb.push(1);
        let mut k: usize = end;
        let stop = end + size;
        while k < stop
            invariant
                data@ == initial,
                stop == end + size,
                end <= k <= end + size,
                end + size <= initial.len(),
                annexb@ == before + start_code() + initial.subrange(end as int, k as int),
            decreases stop - k,
        {
            annexb.push(data[k]);
            proof {
                assert(initial.subrange(end as int, k + 1) =~= initial.subrange(
                    end as int,
                    k as int,
                ).push(initial[k as int]));
            }
            k = k + 1;
        }
        proof {
            lemma_annexb_join_push(units, unit);
            assert(units.push(unit) + avcc_units(initial.skip(end + size), n).0 =~= units + (
            seq![unit] + avcc_units(initial.skip(end + size), n).0));
            units = units.push(unit);
        }
        offset = end + size;
    }
    proof {
        assert(initial.skip(offset as int) =~= Seq::<u8>::empty());
        assert(units + Seq::<Seq<u8>>::empty() =~= units);
    }
    Some(annexb)
}

/// Raw Network Abstraction Layer Unit: the NAL payload alone, without any
/// framing.
#[derive(Debug)]
pub struct Nalu(pub bytes::Bytes);

impl View for Nalu {
    type V = Seq<u8>;

    open spec fn view(&self) -> Seq<u8> {
        bytes_view(self.0)
    }
}

/// The payloads of a sequence of NAL units.
pub open spec fn nalu_views(v: Seq<Nalu>) -> Seq<Seq<u8>> {
    v.map_values(|n: Nalu| n@)
}

impl Clone for Nalu {
    fn clone(&self) -> (r: Self)
        ensures
            r@ == self@,
    {
        Nalu(bytes_clone(&self.0))
    }
}

/// A position held as `usize`, as a mathematical integer.
spec fn opt_int(o: Option<usize>) -> Option<int> {
    match o {
        Some(s) => Some(s as int),
        None => None,
    }
}

impl Nalu {
    /// A unit holding the bytes of `bytes`, without copying them.
    pub fn from_vec(bytes: Vec<u8>) -> (r: Self)
        ensures
            r@ == bytes@,
    {
        Nalu(bytes_from_vec(bytes))
    }

    /// A unit holding a copy of `bytes`.
    pub fn from_slice(bytes: &[u8]) -> (r: Self)
        ensures
            r@ == bytes@,
    {
        Nalu(bytes_copy_from_slice(bytes))
    }

    /// A unit holding the bytes of `bytes`.
    pub fn from_bytes(bytes: bytes::Bytes) -> (r: Self)
        ensures
            r@ == bytes_view(bytes),
    {
        Nalu(bytes)
    }

    /// How many bytes the unit holds.
    pub fn size(&self) -> (r: usize)
        ensures
            r == self@.len(),
    {
        bytes_len(&self.0)
    }

    /// The unit's bytes.
    pub fn as_bytes(&self) -> (r: &[u8])
        ensures
            r@ == self@,
    {
        bytes_as_slice(&self.0)
    }

    /// The buffer holding the unit's bytes.
    pub fn into_bytes(self) -> (r: bytes::Bytes)
        ensures
            bytes_view(r) == self@,
    {
        self.0
    }

    /// Splits an Annex-B stream at its start codes, three or four bytes long,
    /// into the units between them. Bytes before the first start code are not
    /// a unit, and empty units are skipped.
    pub fn from_annexb(data: &[u8]) -> (r: Vec<Self>)
        ensures
            nalu_views(r@) == annexb_units(data@),
    {
        let mut result: Vec<Nalu> = Vec::new();
        let mut start: Option<usize> = None;
        let mut i: usize = 0;
        let ghost d = data@;
        let ghost whole = annexb_scan(d, 0, None);
        proof {
            assert(nalu_views(result@) + whole =~= whole);
        }
        while i < data.len()
            invariant
                d == data@,
                whole == annexb_scan(d, 0, None),
                i <= data.len(),
                start matches Some(s) ==> s <= i,
                nalu_views(result@) + annexb_scan(d, i as int, opt_int(start)) == whole,
            decreases data.len() - i,
        {
            let len: usize = if data.len() - i >= 4 && data[i] == 0 && data[i + 1] == 0 && data[i
                + 2] == 0 && data[i + 3] == 1 {
                4
            } else if data.len() - i >= 3 && data[i] == 0 && data[i + 1] == 0 && data[i + 2] == 1 {
                3
            } else {
                0
            };
            assert(len == start_code_len(d, i as int));
            let ghost before = result@;
            let ghost st = opt_int(start);
            if len > 0 {
                match start {
                    Some(s) => {
                        if s < i {
                            let unit = Nalu::from_slice(vstd::slice::slice_subrange(data, s, i));
                            result.push(unit);
                        }
                    },
                    None => {},
                }
                proof {
                    let head = if st is Some && st->0 < i {
                        seq![d.subrange(st->0, i as int)]
                    } else {
                        seq![]
                    };
                    assert(nalu_views(result@) =~= nalu_views(before) + head);
                    assert(annexb_scan(d, i as int, st) == head + annexb_scan(
                        d,
                        i + len,
                        Some(i + len),
                    ));
                    assert(nalu_views(before) + (head + annexb_scan(d, i + len, Some(i + len)))
                        =~= nalu_views(result@) + annexb_scan(d, i + len, Some(i + len)));
                }
                start = Some(i + len);
                i = i + len;
            } else {
                i = i + 1;
            }
        }
        let ghost st = opt_int(start);
        let ghost before = result@;
        match start {
            Some(s) => {
                if s < data.len() {
                    let unit = Nalu::from_slice(
                        vstd::slice::slice_subrange(data, s, data.len()),
                    );
                    result.push(unit);
                }
            },
            None => {},
        }
        proof {
            let tail = annexb_scan(d, i as int, st);
            assert(nalu_views(result@) =~= nalu_views(before) + tail);
        }
        result
    }
}

/// The bytes of the units together, without their framing.
pub open spec fn units_len(us: Seq<Seq<u8>>) -> int
    decreases us.len(),
{
    if us.len() == 0 {
        0
    } else {
        units_len(us.drop_last()) + us.last().len()
    }
}

/// Annex-B framing adds four bytes to each unit.
proof fn lemma_join_len(us: Seq<Seq<u8>>)
    ensures
        annexb_join(us).len() == 4 * us.len() + units_len(us),
    decreases us.len(),
{
    if us.len() > 0 {
        lemma_join_len(us.drop_last());
    }
}

/// The bytes of a unit and then the others.
proof fn lemma_units_len_prepend(u: Seq<u8>, us: Seq<Seq<u8>>)
    ensures
        units_len(seq![u] + us) == u.len() + units_len(us),
    decreases us.len(),
{
    if us.len() > 0 {
        assert((seq![u] + us).drop_last() =~= seq![u] + us.drop_last());
        assert((seq![u] + us).last() == us.last());
        lemma_units_len_prepend(u, us.drop_last());
    } else {
        assert(seq![u] + us =~= seq![u]);
        assert(seq![u].drop_last() =~= Seq::<Seq<u8>>::empty());
        assert(seq![u].last() == u);
        assert(units_len(Seq::<Seq<u8>>::empty()) == 0);
    }
}

/// An AVCC sample read whole is its units, each after an `n`-byte prefix.
proof fn lemma_avcc_len(data: Seq<u8>, n: nat)
    requires
        n >= 1,
        avcc_units(data, n).1,
    ensures
        data.len() == n * avcc_units(data, n).0.len() + units_len(avcc_units(data, n).0),
    decreases data.len(),
{
    if data.len() > 0 {
        let size = be_value(data.take(n as int));
        let rest = data.skip((n + size) as int);
        let unit = data.subrange(n as int, (n + size) as int);
        lemma_avcc_len(rest, n);
        let us = avcc_units(rest, n).0;
        lemma_units_len_prepend(unit, us);
        assert((seq![unit] + us).len() == us.len() + 1);
        assert(n * (us.len() + 1) == n * us.len() + n) by (nonlinear_arith);
    }
}

/// Annex-B is the same size as AVCC only with 4-byte prefixes; with shorter
/// ones each unit grows by what its prefix lacks of four bytes.
pub proof fn law_annexb_growth(data: Seq<u8>, n: nat)
    requires
        1 <= n <= 4,
        avcc_units(data, n).1,
    ensures
        annexb_join(avcc_units(data, n).0).len() == data.len() + (4 - n) * avcc_units(data, n).0.len(),
{
    let us = avcc_units(data, n).0;
    lemma_avcc_len(data, n);
    lemma_join_len(us);
    assert(4 * us.len() == n * us.len() + (4 - n) * us.len()) by (nonlinear_arith);
}


/// Whether no three-byte start code `00 00 01` stands inside `u`, as the
/// emulation-prevention bytes of a NAL unit see to.
pub open spec fn free_of_start_codes(u: Seq<u8>) -> bool {
    forall|k: int| 0 <= k && k + 3 <= u.len() ==> !(#[trigger] u[k] == 0 && u[k + 1] == 0 && u[k + 2] == 1)
}

/// Annex-B framing, read from the first unit on.
proof fn lemma_join_front(u: Seq<u8>, rest: Seq<Seq<u8>>)
    ensures
        annexb_join(seq![u] + rest) == start_code() + u + annexb_join(rest),
    decreases rest.len(),
{
    if rest.len() == 0 {
        assert(seq![u] + rest =~= seq![u]);
        assert(seq![u].drop_last() =~= Seq::<Seq<u8>>::empty());
        assert(annexb_join(Seq::<Seq<u8>>::empty()) =~= Seq::<u8>::empty());
        assert(start_code() + u + annexb_join(rest) =~= Seq::<u8>::empty() + start_code() + u);
    } else {
        let r0 = rest.drop_last();
        lemma_join_front(u, r0);
        assert((seq![u] + rest).drop_last() =~= seq![u] + r0);
        assert((seq![u] + rest).last() == rest.last());
        assert(start_code() + u + annexb_join(rest) =~= (start_code() + u + annexb_join(r0)) + start_code() + rest.last());
    }
}

/// Scanning past bytes where no start code begins changes nothing.
proof fn lemma_scan_skip(d: Seq<u8>, i: int, j: int, st: Option<int>)
    requires
        0 <= i <= j <= d.len(),
        forall|k: int| i <= k < j ==> #[trigger] start_code_len(d, k) == 0,
    ensures
        annexb_scan(d, i, st) == annexb_scan(d, j, st),
    decreases j - i,
{
    if i < j {
        assert(start_code_len(d, i) == 0);
        lemma_scan_skip(d, i + 1, j, st);
    }
}

/// The units of a stream whose tail from `q` on frames `us` in Annex-B,
/// scanned from just after the first start code.
proof fn lemma_scan_units(d: Seq<u8>, q: int, us: Seq<Seq<u8>>)
    requires
        0 <= q <= d.len(),
        us.len() > 0,
        d.subrange(q, d.len() as int) == annexb_join(us),
        forall|i: int| 0 <= i < us.len() ==> #[trigger] us[i].len() > 0 && free_of_start_codes(us[i]),
    ensures
        annexb_scan(d, q + 4, Some(q + 4)) == us,
    decreases us.len(),
{
    let u = us[0];
    let rest = us.skip(1);
    assert(us =~= seq![u] + rest);
    lemma_join_front(u, rest);
    let tail = d.subrange(q, d.len() as int);
    let j = q + 4 + u.len();
    lemma_join_len(rest);
    assert(tail.len() == 4 + u.len() + annexb_join(rest).len());
    assert forall|m: int| 0 <= m < u.len() implies #[trigger] d[q + 4 + m] == u[m] by {
        assert(tail[4 + m] == (start_code() + u + annexb_join(rest))[4 + m]);
    }
    assert forall|m: int| 0 <= m < annexb_join(rest).len() implies #[trigger] d[j + m] == annexb_join(rest)[m] by {
        assert(tail[4 + u.len() + m] == (start_code() + u + annexb_join(rest))[4 + u.len() + m]);
    }
    if rest.len() > 0 {
        let r0 = rest[0];
        lemma_join_front(r0, rest.skip(1));
        assert(rest =~= seq![r0] + rest.skip(1));
        assert(annexb_join(rest)[0] == 0 && annexb_join(rest)[1] == 0 && annexb_join(rest)[2] == 0 && annexb_join(rest)[3] == 1);
        assert(d[j + 0] == annexb_join(rest)[0]);
        assert(d[j] == 0 && d[j + 1] == 0 && d[j + 2] == 0 && d[j + 3] == 1);
    }
    assert(free_of_start_codes(u)) by {
        assert(us[0] == u);
    }
    assert forall|k: int| q + 4 <= k < j implies #[trigger] start_code_len(d, k) == 0 by {
        let off = k - (q + 4);
        if k + 3 <= j {
            assert(d[q + 4 + off] == u[off]);
            assert(d[q + 4 + (off + 1)] == u[off + 1]);
            assert(d[q + 4 + (off + 2)] == u[off + 2]);
            assert(d[k] == u[off] && d[k + 1] == u[off + 1] && d[k + 2] == u[off + 2]);
            assert(!(u[off] == 0 && u[off + 1] == 0 && u[off + 2] == 1));
            if k + 4 <= j {
                assert(d[q + 4 + (off + 3)] == u[off + 3]);
                assert(d[k + 3] == u[off + 3]);
                assert(!(u[off + 1] == 0 && u[off + 2] == 0 && u[off + 3] == 1));
            }
        }
    }
    lemma_scan_skip(d, q + 4, j, Some(q + 4));
    if rest.len() == 0 {
        assert(j == d.len());
        assert forall|m: int| 0 <= m < u.len() implies #[trigger] d.subrange(q + 4, d.len() as int)[m] == u[m] by {
            assert(d[q + 4 + m] == u[m]);
        }
        assert(d.subrange(q + 4, d.len() as int) =~= u);
        assert(annexb_scan(d, j, Some(q + 4)) =~= seq![u]);
        assert(us =~= seq![u]);
    } else {
        assert(start_code_len(d, j) == 4);
        assert forall|m: int| 0 <= m < u.len() implies #[trigger] d.subrange(q + 4, j)[m] == u[m] by {
            assert(d[q + 4 + m] == u[m]);
        }
        assert(d.subrange(q + 4, j) =~= u);
        assert forall|m: int| 0 <= m < annexb_join(rest).len() implies #[trigger] d.subrange(j, d.len() as int)[m] == annexb_join(rest)[m] by {
            assert(d[j + m] == annexb_join(rest)[m]);
        }
        assert(d.subrange(j, d.len() as int) =~= annexb_join(rest));
        lemma_scan_units(d, j, rest);
        assert(annexb_scan(d, j, Some(q + 4)) =~= seq![u] + annexb_scan(d, j + 4, Some(j + 4)));
    }
}

/// Framing units in Annex-B and splitting the stream at its start codes
/// gives the units back, where none is empty and none holds a start code.
pub proof fn law_annexb_round_trip(us: Seq<Seq<u8>>)
    requires
        forall|i: int| 0 <= i < us.len() ==> #[trigger] us[i].len() > 0 && free_of_start_codes(us[i]),
    ensures
        annexb_units(annexb_join(us)) == us,
{
    let d = annexb_join(us);
    if us.len() == 0 {
        assert(annexb_units(d) =~= us);
    } else {
        assert(d.subrange(0, d.len() as int) =~= d);
        let u = us[0];
        lemma_join_front(u, us.skip(1));
        assert(us =~= seq![u] + us.skip(1));
        assert(d[0] == 0 && d[1] == 0 && d[2] == 0 && d[3] == 1);
        assert(start_code_len(d, 0) == 4);
        lemma_scan_units(d, 0, us);
        assert(annexb_scan(d, 0, None) =~= annexb_scan(d, 4, Some(4)));
    }
}

/// Scanning bytes after a prefix `s` is scanning them alone, shifted by
/// the prefix's length.
proof fn lemma_scan_shift(s: Seq<u8>, t: Seq<u8>, i: int, st: Option<int>)
    requires
        0 <= i,
        st matches Some(x) ==> 0 <= x,
    ensures
        annexb_scan(s + t, s.len() + i, match st {
            Some(x) => Some(s.len() + x),
            None => None,
        }) == annexb_scan(t, i, st),
    decreases t.len() - i,
{
    let d = s + t;
    let n = s.len() as int;
    let st2 = match st {
        Some(x) => Some(n + x),
        None => None,
    };
    if i < t.len() {
        assert forall|m: int| 0 <= m < 4 && i + m < t.len() implies #[trigger] d[n + i + m] == t[i + m] by {}
        assert(d[n + i] == t[i]);
        if i + 1 < t.len() { assert(d[n + i + 1] == t[i + 1]); }
        if i + 2 < t.len() { assert(d[n + i + 2] == t[i + 2]); }
        if i + 3 < t.len() { assert(d[n + i + 3] == t[i + 3]); }
        assert(start_code_len(d, n + i) == start_code_len(t, i));
        let len = start_code_len(t, i);
        if len > 0 {
            lemma_scan_shift(s, t, i + len, Some(i + len));
            if let Some(x) = st {
                if x < i {
                    assert(d.subrange(n + x, n + i) =~= t.subrange(x, i));
                }
            }
        } else {
            lemma_scan_shift(s, t, i + 1, st);
        }
    } else {
        if let Some(x) = st {
            if x < t.len() {
                assert(d.subrange(n + x, d.len() as int) =~= t.subrange(x, t.len() as int));
            }
        }
    }
}

/// Bytes before the first start code are no unit: a prefix that holds no
/// start code, put before a stream that is empty or starts with the
/// four-byte start code, leaves its units as they are.
pub proof fn law_annexb_prefix_is_no_unit(s: Seq<u8>, t: Seq<u8>)
    requires
        free_of_start_codes(s),
        t.len() == 0 || (t.len() >= 4 && t.take(4) == start_code()),
    ensures
        annexb_units(s + t) == annexb_units(t),
{
    let d = s + t;
    let n = s.len() as int;
    if t.len() > 0 {
        assert(t[0] == t.take(4)[0] && t[1] == t.take(4)[1] && t[2] == t.take(4)[2]);
    }
    assert forall|k: int| 0 <= k < n implies #[trigger] start_code_len(d, k) == 0 by {
        if k + 3 <= n {
            assert(d[k] == s[k] && d[k + 1] == s[k + 1] && d[k + 2] == s[k + 2]);
            assert(!(s[k] == 0 && s[k + 1] == 0 && s[k + 2] == 1));
            if k + 4 <= d.len() && d[k] == 0 && d[k + 1] == 0 && d[k + 2] == 0 && d[k + 3] == 1 {
                if k + 4 <= n {
                    assert(d[k + 3] == s[k + 3]);
                    assert(s[k + 1] == 0 && s[k + 2] == 0 && s[k + 3] == 1);
                    assert(!(s[k + 1] == 0 && s[k + 2] == 0 && s[k + 3] == 1));
                } else {
                    assert(d[k + 3] == t[k + 3 - n]);
                }
            }
        } else if t.len() > 0 {
            if k + 2 < d.len() {
                assert(d[k + 2] == t[k + 2 - n]);
            }
            if k + 3 < d.len() {
                assert(d[k + 3] == t[k + 3 - n]);
            }
        }
    }
    lemma_scan_skip(d, 0, n, None);
    lemma_scan_shift(s, t, 0, None);
    assert(s.len() + 0 == n);
}

/// Every unit split off a stream follows a start code: the units of a
/// stream framed from start-code-free units after any start-code-free
/// prefix are those units.
pub proof fn law_annexb_units_follow_start_codes(s: Seq<u8>, us: Seq<Seq<u8>>)
    requires
        free_of_start_codes(s),
        forall|i: int| 0 <= i < us.len() ==> #[trigger] us[i].len() > 0 && free_of_start_codes(us[i]),
    ensures
        annexb_units(s + annexb_join(us)) == us,
{
    let t = annexb_join(us);
    if us.len() > 0 {
        lemma_join_front(us[0], us.skip(1));
        assert(us =~= seq![us[0]] + us.skip(1));
        assert(t.take(4) =~= start_code());
    }
    law_annexb_prefix_is_no_unit(s, t);
    law_annexb_round_trip(us);
}

} // verus!
