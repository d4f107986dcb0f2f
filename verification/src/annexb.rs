//! Annex-B byte streams: start codes, NAL unit boundaries and keyframe
//! detection.
//!
//! A start code is the byte triple `00 00 01`. The four-byte form
//! `00 00 00 01` is the same triple behind one more zero byte, so every rule
//! here is stated over the triple alone: zero bytes that stand in front of a
//! start code are padding and belong to no NAL unit.

use vstd::prelude::*;

verus! {

/// A start code begins at index `i` of `data`.
pub open spec fn is_start_code_at(data: Seq<u8>, i: int) -> bool {
    &&& 0 <= i
    &&& i + 3 <= data.len()
    &&& data[i] == 0
    &&& data[i + 1] == 0
    &&& data[i + 2] == 1
}

/// `s` without the zero bytes at its end.
pub open spec fn trim_zeros(s: Seq<u8>) -> Seq<u8>
    decreases s.len(),
{
    if s.len() > 0 && s.last() == 0 {
        trim_zeros(s.drop_last())
    } else {
        s
    }
}

/// The NAL units found from scan position `i` on, where the unit being
/// scanned began at `start`.
///
/// A unit ends where the next start code begins and loses the zero padding in
/// front of that start code; a unit left empty by this is no unit. The bytes
/// behind the last start code form the last unit as they are.
pub open spec fn split_from(data: Seq<u8>, start: int, i: int) -> Seq<Seq<u8>>
    decreases data.len() - i,
{
    if i >= data.len() {
        if 0 <= start < data.len() {
            seq![data.subrange(start, data.len() as int)]
        } else {
            Seq::empty()
        }
    } else if is_start_code_at(data, i) {
        let unit = trim_zeros(data.subrange(start, i));
        let rest = split_from(data, i + 3, i + 3);
        if unit.len() > 0 {
            seq![unit] + rest
        } else {
            rest
        }
    } else {
        split_from(data, start, i + 1)
    }
}

/// The NAL units of an Annex-B access unit, in order, without start codes.
pub open spec fn nal_units(data: Seq<u8>) -> Seq<Seq<u8>> {
    split_from(data, 0, 0)
}

/// The contents of a list of borrowed byte runs.
pub open spec fn unit_views(units: Seq<&[u8]>) -> Seq<Seq<u8>> {
    Seq::new(units.len(), |k: int| units[k]@)
}

/// The type of a NAL unit whose first byte is `header`: its low five bits.
pub open spec fn nal_type_of(header: u8) -> int {
    header as int % 32
}

/// NAL types that mark a keyframe: an IDR slice or a sequence parameter set.
pub open spec fn is_keyframe_type(nal_type: int) -> bool {
    nal_type == 5 || nal_type == 7
}

/// A start code at `p` is followed by the header of a keyframe NAL unit.
pub open spec fn keyframe_at(data: Seq<u8>, p: int) -> bool {
    &&& is_start_code_at(data, p)
    &&& p + 3 < data.len()
    &&& is_keyframe_type(nal_type_of(data[p + 3]))
}

/// Some start code of `data` is followed by a NAL header of type 5 or 7.
pub open spec fn has_keyframe_nal(data: Seq<u8>) -> bool {
    exists|p: int| keyframe_at(data, p)
}

/// The boundary between `a` and `b` cuts no start code of `a + b` and parts
/// none from the NAL header byte behind it.
pub open spec fn boundary_spares_start_codes(a: Seq<u8>, b: Seq<u8>) -> bool {
    forall|p: int|
        #[trigger] is_start_code_at(a + b, p) && p + 3 < a.len() + b.len() ==> p + 3 < a.len()
            || a.len() <= p
}

/// A keyframe found in a part of a stream is found in the whole stream.
pub proof fn lemma_keyframe_in_part(a: Seq<u8>, b: Seq<u8>)
    ensures
        has_keyframe_nal(a) ==> has_keyframe_nal(a + b),
        has_keyframe_nal(b) ==> has_keyframe_nal(a + b),
{
    if has_keyframe_nal(a) {
        let p = choose|p: int| keyframe_at(a, p);
        assert(keyframe_at(a + b, p));
    }
    if has_keyframe_nal(b) {
        let p = choose|p: int| keyframe_at(b, p);
        assert(keyframe_at(a + b, p + a.len()));
    }
}

/// Keyframe detection distributes over concatenation: where the boundary
/// spares the start codes, `a + b` holds a keyframe exactly if `a` or `b`
/// does.
pub proof fn lemma_keyframe_of_concat(a: Seq<u8>, b: Seq<u8>)
    requires
        boundary_spares_start_codes(a, b),
    ensures
        has_keyframe_nal(a + b) == (has_keyframe_nal(a) || has_keyframe_nal(b)),
{
    lemma_keyframe_in_part(a, b);
    if has_keyframe_nal(a + b) {
        let p = choose|p: int| keyframe_at(a + b, p);
        assert(is_start_code_at(a + b, p));
        if p + 3 < a.len() {
            assert(keyframe_at(a, p));
        } else {
            assert(keyframe_at(b, p - a.len()));
        }
    }
}

/// The four-byte start code written in front of a NAL unit.
pub open spec fn start_code() -> Seq<u8> {
    seq![0u8, 0u8, 0u8, 1u8]
}

/// The NAL units `nals[from..]` in Annex-B form, each behind a four-byte
/// start code.
pub open spec fn joined_from(nals: Seq<Seq<u8>>, from: int) -> Seq<u8>
    decreases nals.len() - from,
{
    if from < 0 || from >= nals.len() {
        Seq::empty()
    } else {
        start_code() + nals[from] + joined_from(nals, from + 1)
    }
}

/// An access unit in Annex-B form, made of `nals`.
pub open spec fn annexb_join(nals: Seq<Seq<u8>>) -> Seq<u8> {
    joined_from(nals, 0)
}

/// A NAL unit as splitting yields it: not empty, without a start code
/// inside and, unless it is the last of its access unit, without a zero byte
/// at its end.
pub open spec fn is_clean_unit(nal: Seq<u8>, last: bool) -> bool {
    &&& nal.len() > 0
    &&& forall|p: int| !is_start_code_at(nal, p)
    &&& !last ==> nal.last() != 0
}

/// Every unit of `nals` is clean.
pub open spec fn are_clean_units(nals: Seq<Seq<u8>>) -> bool {
    forall|k: int| 0 <= k < nals.len() ==> is_clean_unit(#[trigger] nals[k], k == nals.len() - 1)
}

proof fn lemma_trim_zeros_clean(s: Seq<u8>)
    ensures
        trim_zeros(s).len() <= s.len(),
        trim_zeros(s) == s.subrange(0, trim_zeros(s).len() as int),
        trim_zeros(s).len() > 0 ==> trim_zeros(s).last() != 0,
    decreases s.len(),
{
    if s.len() > 0 && s.last() == 0 {
        lemma_trim_zeros_clean(s.drop_last());
        let t = trim_zeros(s.drop_last());
        assert(t =~= s.subrange(0, t.len() as int));
    } else {
        assert(s =~= s.subrange(0, s.len() as int));
    }
}

/// The units found from any point of a scan on are clean, where no start
/// code lies between the begin of the unit in progress and that point.
proof fn lemma_split_is_clean(data: Seq<u8>, start: int, i: int)
    requires
        0 <= start <= i,
        forall|p: int| start <= p < i ==> !is_start_code_at(data, p),
    ensures
        are_clean_units(split_from(data, start, i)),
    decreases data.len() - i,
{
    let units = split_from(data, start, i);
    if i >= data.len() {
        if start < data.len() {
            let unit = data.subrange(start, data.len() as int);
            assert forall|p: int| !is_start_code_at(unit, p) by {
                if is_start_code_at(unit, p) {
                    assert(is_start_code_at(data, start + p));
                }
            }
        }
    } else if is_start_code_at(data, i) {
        let cut = data.subrange(start, i);
        let unit = trim_zeros(cut);
        let rest = split_from(data, i + 3, i + 3);
        lemma_split_is_clean(data, i + 3, i + 3);
        lemma_trim_zeros_clean(cut);
        if unit.len() > 0 {
            assert forall|p: int| !is_start_code_at(unit, p) by {
                if is_start_code_at(unit, p) {
                    assert(is_start_code_at(data, start + p));
                }
            }
            assert forall|k: int| 0 <= k < units.len() implies is_clean_unit(
                #[trigger] units[k],
                k == units.len() - 1,
            ) by {
                if k > 0 {
                    assert(units[k] == rest[k - 1]);
                }
            }
        }
    } else {
        lemma_split_is_clean(data, start, i + 1);
    }
}

/// Splitting yields clean units: none is empty, none holds a start code, and
/// only the last may end in a zero byte.
pub proof fn lemma_nal_units_are_clean(data: Seq<u8>)
    ensures
        are_clean_units(nal_units(data)),
        forall|k: int| 0 <= k < nal_units(data).len() ==> (#[trigger] nal_units(data)[k]).len() > 0,
{
    lemma_split_is_clean(data, 0, 0);
    assert forall|k: int| 0 <= k < nal_units(data).len() implies (#[trigger] nal_units(
        data,
    )[k]).len() > 0 by {
        assert(is_clean_unit(nal_units(data)[k], k == nal_units(data).len() - 1));
    }
}

/// A scan skips a stretch without start codes.
proof fn lemma_split_skips(data: Seq<u8>, start: int, i: int, j: int)
    requires
        i <= j <= data.len(),
        forall|p: int| i <= p < j ==> !is_start_code_at(data, p),
    ensures
        split_from(data, start, i) == split_from(data, start, j),
    decreases j - i,
{
    if i < j {
        lemma_split_skips(data, start, i + 1, j);
    }
}

/// What lies in front of the unit in progress has no part in a scan.
proof fn lemma_split_ignores_front(front: Seq<u8>, back: Seq<u8>, start: int, i: int)
    requires
        0 <= start <= i,
    ensures
        split_from(front + back, front.len() + start, front.len() + i) == split_from(
            back,
            start,
            i,
        ),
    decreases back.len() - i,
{
    let data = front + back;
    let n = front.len() as int;
    if i >= back.len() {
        if start < back.len() {
            assert(data.subrange(n + start, data.len() as int) =~= back.subrange(
                start,
                back.len() as int,
            ));
        }
    } else {
        assert(is_start_code_at(data, n + i) == is_start_code_at(back, i)) by {
            if i + 3 <= back.len() {
                assert(data[n + i] == back[i]);
                assert(data[n + i + 1] == back[i + 1]);
                assert(data[n + i + 2] == back[i + 2]);
            }
        }
        if is_start_code_at(back, i) {
            assert(data.subrange(n + start, n + i) =~= back.subrange(start, i));
            lemma_split_ignores_front(front, back, i + 3, i + 3);
        } else {
            lemma_split_ignores_front(front, back, start, i + 1);
        }
    }
}

/// A scan of bytes that begin with a four-byte start code finds nothing in
/// it and goes on behind it.
proof fn lemma_split_passes_start_code(data: Seq<u8>)
    requires
        data.len() >= 4,
        data.subrange(0, 4) == start_code(),
    ensures
        split_from(data, 0, 0) == split_from(data, 4, 4),
{
    assert(data[0] == data.subrange(0, 4)[0]);
    assert(data[1] == data.subrange(0, 4)[1]);
    assert(data[2] == data.subrange(0, 4)[2]);
    assert(data[3] == data.subrange(0, 4)[3]);
    assert(!is_start_code_at(data, 0));
    assert(is_start_code_at(data, 1));
    assert(split_from(data, 0, 0) == split_from(data, 0, 1));
    let cut = data.subrange(0, 1);
    assert(cut.last() == 0);
    assert(cut.drop_last() =~= Seq::<u8>::empty());
    assert(trim_zeros(cut) == trim_zeros(cut.drop_last()));
    assert(trim_zeros(cut).len() == 0);
}

proof fn lemma_joined_begins(nals: Seq<Seq<u8>>, from: int)
    requires
        0 <= from < nals.len(),
    ensures
        joined_from(nals, from).len() >= 4 + nals[from].len(),
        joined_from(nals, from).subrange(0, 4) == start_code(),
        joined_from(nals, from).subrange(4, 4 + nals[from].len() as int) == nals[from],
{
    let d = joined_from(nals, from);
    assert(d.subrange(0, 4) =~= start_code());
    assert(d.subrange(4, 4 + nals[from].len() as int) =~= nals[from]);
}

proof fn lemma_split_of_joined(nals: Seq<Seq<u8>>, from: int)
    requires
        0 <= from <= nals.len(),
        are_clean_units(nals),
    ensures
        split_from(joined_from(nals, from), 0, 0) == nals.subrange(from, nals.len() as int),
    decreases nals.len() - from,
{
    let d = joined_from(nals, from);
    if from == nals.len() {
        assert(nals.subrange(from, nals.len() as int) =~= Seq::<Seq<u8>>::empty());
    } else {
        let nal = nals[from];
        let e: int = 4 + nal.len() as int;
        let rest = joined_from(nals, from + 1);
        assert(is_clean_unit(nal, from == nals.len() - 1));
        lemma_joined_begins(nals, from);
        lemma_split_passes_start_code(d);
        assert forall|p: int| 4 <= p < e && p + 3 <= e implies !is_start_code_at(d, p) by {
            if is_start_code_at(d, p) {
                assert(d[p] == d.subrange(4, e)[p - 4]);
                assert(d[p + 1] == d.subrange(4, e)[p - 3]);
                assert(d[p + 2] == d.subrange(4, e)[p - 2]);
                assert(is_start_code_at(nal, p - 4));
            }
        }
        if from == nals.len() - 1 {
            assert(rest =~= Seq::<u8>::empty());
            assert(d.len() == e);
            lemma_split_skips(d, 4, 4, e);
            assert(d.subrange(4, e) == nal);
            assert(nals.subrange(from, nals.len() as int) =~= seq![nal]);
        } else {
            lemma_joined_begins(nals, from + 1);
            assert(d =~= (start_code() + nal) + rest);
            assert(d[e] == rest.subrange(0, 4)[0]);
            assert(d[e + 1] == rest.subrange(0, 4)[1]);
            assert(d[e + 2] == rest.subrange(0, 4)[2]);
            assert(d[e + 3] == rest.subrange(0, 4)[3]);
            assert(d[e - 1] == d.subrange(4, e)[e - 5]);
            assert(d[e - 1] == nal.last());
            assert(is_start_code_at(d, e + 1));
            lemma_split_skips(d, 4, 4, e + 1);
            let cut = d.subrange(4, e + 1);
            assert(cut.last() == 0);
            assert(cut.drop_last() =~= nal);
            assert(trim_zeros(cut) == trim_zeros(nal));
            assert(trim_zeros(nal) == nal);
            lemma_split_ignores_front(start_code() + nal, rest, 4, 4);
            lemma_split_passes_start_code(rest);
            lemma_split_of_joined(nals, from + 1);
            assert(seq![nal] + nals.subrange(from + 1, nals.len() as int) =~= nals.subrange(
                from,
                nals.len() as int,
            ));
        }
    }
}

/// Joining clean NAL units behind start codes and splitting the result
/// gives the units back.
pub proof fn lemma_split_of_join(nals: Seq<Seq<u8>>)
    requires
        are_clean_units(nals),
    ensures
        nal_units(annexb_join(nals)) == nals,
{
    lemma_split_of_joined(nals, 0);
    assert(nals.subrange(0, nals.len() as int) =~= nals);
}

/// The low five bits of a NAL header byte.
pub fn nal_type(header: u8) -> (t: u8)
    ensures
        t as int == nal_type_of(header),
        t < 32,
{
    assert(header & 0x1f == header % 32) by (bit_vector);
    header & 0x1f
}

/// Index behind the last non-zero byte of `data[start..end]`, or `start`.
fn trimmed_end(data: &[u8], start: usize, end: usize) -> (e: usize)
    requires
        start <= end <= data.len(),
    ensures
        start <= e <= end,
        data@.subrange(start as int, e as int) == trim_zeros(
            data@.subrange(start as int, end as int),
        ),
{
    let mut e: usize = end;
    while e > start && data[e - 1] == 0
        invariant
            start <= e <= end <= data.len(),
            trim_zeros(data@.subrange(start as int, e as int)) == trim_zeros(
                data@.subrange(start as int, end as int),
            ),
        decreases e,
    {
        proof {
            let s = data@.subrange(start as int, e as int);
            assert(s.last() == 0);
            assert(s.drop_last() == data@.subrange(start as int, e - 1));
        }
        e = e - 1;
    }
    proof {
        let s = data@.subrange(start as int, e as int);
        assert(s.len() == 0 || s.last() != 0);
    }
    e
}

/// Splits an access unit into its NAL units, each a borrowed run of `data`
/// without its start code.
pub fn find_nal_units<'a>(data: &'a [u8]) -> (units: Vec<&'a [u8]>)
    ensures
        unit_views(units@) == nal_units(data@),
{
    let n: usize = data.len();
    let mut units: Vec<&'a [u8]> = Vec::new();
    let mut start: usize = 0;
    let mut i: usize = 0;
    assert(unit_views(units@) == Seq::<Seq<u8>>::empty());
    while i < n
        invariant
            n == data.len(),
            start <= i <= n,
            nal_units(data@) == unit_views(units@) + split_from(data@, start as int, i as int),
        decreases n - i,
    {
        if n - i >= 3 && data[i] == 0 && data[i + 1] == 0 && data[i + 2] == 1 {
            assert(is_start_code_at(data@, i as int));
            let end: usize = trimmed_end(data, start, i);
            if end > start {
                let unit: &'a [u8] = vstd::slice::slice_subrange(data, start, end);
                let ghost before = units@;
                units.push(unit);
                assert(unit_views(units@) == unit_views(before) + seq![unit@]);
            }
            start = i + 3;
            i = i + 3;
        } else {
            assert(!is_start_code_at(data@, i as int));
            i = i + 1;
        }
    }
    if start < n {
        let unit: &'a [u8] = vstd::slice::slice_subrange(data, start, n);
        let ghost before = units@;
        units.push(unit);
        assert(unit_views(units@) == unit_views(before) + seq![unit@]);
    }
    units
}

/// Tells whether an Annex-B bitstream holds a keyframe: a NAL unit of type 5
/// (IDR slice) or 7 (sequence parameter set) behind any of its start codes.
pub fn is_h264_keyframe(data: &[u8]) -> (found: bool)
    ensures
        found == has_keyframe_nal(data@),
{
    let n: usize = data.len();
    let mut i: usize = 0;
    while n - i > 3
        invariant
            n == data.len(),
            i <= n,
            forall|p: int| 0 <= p < i ==> !keyframe_at(data@, p),
        decreases n - i,
    {
        if data[i] == 0 && data[i + 1] == 0 && data[i + 2] == 1 {
            let t: u8 = nal_type(data[i + 3]);
            if t == 5 || t == 7 {
                assert(keyframe_at(data@, i as int));
                return true;
            }
        }
        i = i + 1;
    }
    assert(forall|p: int| !keyframe_at(data@, p));
    false
}

} // verus!
