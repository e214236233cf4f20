//! The content-addressable cache gate: a canonical byte encoding of
//! everything that affects pixel output, the digest over it, the expected
//! artifact names for a run, and the regenerate-or-reuse decision.

use vstd::prelude::*;
use crate::config::{spec_locker_name, Alignment, Backend, Config, Locker};
use crate::layout::MonitorXY;

verus! {

/// Big-endian bytes of a `u32`.
pub open spec fn be32(x: u32) -> Seq<u8> {
    seq![(x >> 24) as u8, (x >> 16) as u8, (x >> 8) as u8, x as u8]
}

/// Big-endian encoding is injective.
proof fn lemma_be32_injective(x: u32, y: u32)
    requires
        be32(x) == be32(y),
    ensures
        x == y,
{
    assert(be32(x)[0] == be32(y)[0] && be32(x)[1] == be32(y)[1] && be32(x)[2] == be32(y)[2]
        && be32(x)[3] == be32(y)[3]);
    assert(((x >> 24) as u8 == (y >> 24) as u8 && (x >> 16) as u8 == (y >> 16) as u8 && (x
        >> 8) as u8 == (y >> 8) as u8 && x as u8 == y as u8) ==> x == y) by (bit_vector);
}

/// The bit pattern of an `i32`, as encoding input.
pub open spec fn bits32(x: i32) -> u32 {
    x as u32
}

/// The bit pattern determines the value.
proof fn lemma_bits32_injective(x: i32, y: i32)
    requires
        bits32(x) == bits32(y),
    ensures
        x == y,
{
    assert((x as u32 == y as u32) ==> x == y) by (bit_vector);
}

/// Appends the big-endian bytes of a `u32`.
fn push_be32(out: &mut Vec<u8>, x: u32)
    ensures
        final(out)@ == old(out)@ + be32(x),
{
    out.push((x >> 24) as u8);
    out.push((x >> 16) as u8);
    out.push((x >> 8) as u8);
    out.push(x as u8);
    proof {
        assert(final(out)@ =~= old(out)@ + be32(x));
    }
}

/// One byte for the alignment selection, `0` for none.
pub open spec fn align_code(a: Option<Alignment>) -> u8 {
    match a {
        Option::None => 0,
        Option::Some(Alignment::Tl) => 1,
        Option::Some(Alignment::Tr) => 2,
        Option::Some(Alignment::Tc) => 3,
        Option::Some(Alignment::Bl) => 4,
        Option::Some(Alignment::Br) => 5,
        Option::Some(Alignment::Bc) => 6,
        Option::Some(Alignment::Rc) => 7,
        Option::Some(Alignment::Lc) => 8,
        Option::Some(Alignment::Ct) => 9,
    }
}

/// The alignment byte determines the selection.
proof fn lemma_align_code_injective(a: Option<Alignment>, b: Option<Alignment>)
    requires
        align_code(a) == align_code(b),
    ensures
        a == b,
{
}

/// One byte for the backend selection, `0` for none.
pub open spec fn backend_code(b: Option<Backend>) -> u8 {
    match b {
        Option::None => 0,
        Option::Some(Backend::Wpaperd) => 1,
        Option::Some(Backend::Swaybg) => 2,
        Option::Some(Backend::Hyprpaper) => 3,
    }
}

/// One byte for the locker selection, `0` for none.
pub open spec fn locker_code(l: Option<Locker>) -> u8 {
    match l {
        Option::None => 0,
        Option::Some(Locker::Swaylock) => 1,
        Option::Some(Locker::Hyprlock) => 2,
    }
}

/// One byte for a flag.
pub open spec fn bool_code(b: bool) -> u8 {
    if b {
        1
    } else {
        0
    }
}

/// Five bytes for an optional bezel amount: a presence tag and the value.
pub open spec fn encode_bezel(b: Option<u32>) -> Seq<u8> {
    match b {
        Option::None => seq![0u8] + be32(0),
        Option::Some(v) => seq![1u8] + be32(v),
    }
}

/// The bezel encoding determines the bezel.
proof fn lemma_encode_bezel_injective(a: Option<u32>, b: Option<u32>)
    requires
        encode_bezel(a) == encode_bezel(b),
    ensures
        a == b,
{
    match (a, b) {
        (Option::Some(x), Option::Some(y)) => {
            assert(encode_bezel(a)[1] == be32(x)[0] && encode_bezel(a)[2] == be32(x)[1]
                && encode_bezel(a)[3] == be32(x)[2] && encode_bezel(a)[4] == be32(x)[3]);
            assert(be32(x) =~= be32(y));
            lemma_be32_injective(x, y);
        },
        (Option::Some(x), Option::None) => {
            assert(encode_bezel(a)[0] == 1u8 && encode_bezel(b)[0] == 0u8);
        },
        (Option::None, Option::Some(y)) => {
            assert(encode_bezel(a)[0] == 0u8 && encode_bezel(b)[0] == 1u8);
        },
        (Option::None, Option::None) => {
        },
    }
}

/// Each character of a name as four big-endian bytes, in order.
pub open spec fn encode_chars(s: Seq<char>) -> Seq<u8>
    decreases s.len(),
{
    if s.len() == 0 {
        Seq::empty()
    } else {
        encode_chars(s.drop_last()) + be32(s.last() as u32)
    }
}

/// A length-prefixed name.
pub open spec fn encode_str(s: Seq<char>) -> Seq<u8> {
    be32(s.len() as u32) + encode_chars(s)
}

/// The configured diagonal list: a count, then each entry as a
/// length-prefixed name and the inches value.
pub open spec fn encode_diagonal_entries(ds: Seq<(String, u32)>) -> Seq<u8>
    decreases ds.len(),
{
    if ds.len() == 0 {
        Seq::empty()
    } else {
        encode_diagonal_entries(ds.drop_last()) + encode_str(ds.last().0@) + be32(ds.last().1)
    }
}

/// The non-path configuration fields that affect pixel output, in a fixed
/// order: alignment, bezel, palette flag, backend and locker selection,
/// then the diagonal map.
pub open spec fn encode_config(c: Config) -> Seq<u8> {
    seq![align_code(c.align)] + encode_bezel(c.bezel) + seq![
        bool_code(c.palette),
        backend_code(c.backend),
        locker_code(c.locker),
    ] + be32(c.diagonals@.len() as u32) + encode_diagonal_entries(c.diagonals@)
}

/// One resolved monitor as a fixed 32-byte block.
pub open spec fn encode_monitor(m: MonitorXY) -> Seq<u8> {
    be32(bits32(m.x1)) + be32(bits32(m.y1)) + be32(bits32(m.x2)) + be32(bits32(m.y2)) + be32(
        m.width,
    ) + be32(m.height) + be32(m.initial_width) + be32(m.initial_height)
}

/// The blocks of all resolved monitors, in order.
pub open spec fn encode_monitor_blocks(ms: Seq<MonitorXY>) -> Seq<u8>
    decreases ms.len(),
{
    if ms.len() == 0 {
        Seq::empty()
    } else {
        encode_monitor_blocks(ms.drop_last()) + encode_monitor(ms.last())
    }
}

/// The resolved monitor set: a count, then the blocks.
pub open spec fn encode_monitors(ms: Seq<MonitorXY>) -> Seq<u8> {
    be32(ms.len() as u32) + encode_monitor_blocks(ms)
}

/// Everything the cache key depends on, concatenated in a fixed order:
/// relevant configuration, the resolved monitor set, the raw source bytes.
pub open spec fn encode_run_input(c: Config, layout: Seq<MonitorXY>, source: Seq<u8>) -> Seq<u8> {
    encode_config(c) + encode_monitors(layout) + source
}

/// Builds the canonical encoding of one run's hash input.
#[verifier::rlimit(100)]
pub fn encode_run_input_bytes(c: &Config, layout: &Vec<MonitorXY>, source: &Vec<u8>) -> (r: Vec<
    u8,
>)
    ensures
        r@ == encode_run_input(*c, layout@, source@),
{
    let mut out: Vec<u8> = Vec::new();
    let ac: u8 = match c.align {
        Option::None => 0,
        Option::Some(Alignment::Tl) => 1,
        Option::Some(Alignment::Tr) => 2,
        Option::Some(Alignment::Tc) => 3,
        Option::Some(Alignment::Bl) => 4,
        Option::Some(Alignment::Br) => 5,
        Option::Some(Alignment::Bc) => 6,
        Option::Some(Alignment::Rc) => 7,
        Option::Some(Alignment::Lc) => 8,
        Option::Some(Alignment::Ct) => 9,
    };
    out.push(ac);
    match c.bezel {
        Option::None => {
            out.push(0);
            push_be32(&mut out, 0);
        },
        Option::Some(v) => {
            out.push(1);
            push_be32(&mut out, v);
        },
    }
    out.push(if c.palette {
        1
    } else {
        0
    });
    let bc: u8 = match c.backend {
        Option::None => 0,
        Option::Some(Backend::Wpaperd) => 1,
        Option::Some(Backend::Swaybg) => 2,
        Option::Some(Backend::Hyprpaper) => 3,
    };
    out.push(bc);
    let lc: u8 = match c.locker {
        Option::None => 0,
        Option::Some(Locker::Swaylock) => 1,
        Option::Some(Locker::Hyprlock) => 2,
    };
    out.push(lc);
    proof {
        assert(out@ =~= seq![align_code(c.align)] + encode_bezel(c.bezel) + seq![
            bool_code(c.palette),
            backend_code(c.backend),
            locker_code(c.locker),
        ]);
    }
    push_be32(&mut out, c.diagonals.len() as u32);
    let nd = c.diagonals.len();
    let mut i: usize = 0;
    let ghost header = out@;
    while i < nd
        invariant
            nd == c.diagonals.len(),
            i <= nd,
            out@ == header + encode_diagonal_entries(c.diagonals@.take(i as int)),
        decreases nd - i,
    {
        proof {
            assert(c.diagonals@.take(i as int + 1).drop_last() =~= c.diagonals@.take(i as int));
            assert(c.diagonals@.take(i as int + 1).last() == c.diagonals@[i as int]);
        }
        let entry = &c.diagonals[i];
        push_str_bytes(&mut out, &entry.0);
        push_be32(&mut out, entry.1);
        proof {
            assert(out@ =~= header + encode_diagonal_entries(c.diagonals@.take(i as int + 1)));
        }
        i = i + 1;
    }
    proof {
        assert(c.diagonals@.take(nd as int) =~= c.diagonals@);
        assert(out@ =~= encode_config(*c));
    }
    let ghost cfg_part = out@;
    push_be32(&mut out, layout.len() as u32);
    let nm = layout.len();
    let mut k: usize = 0;
    let ghost mon_header = out@;
    while k < nm
        invariant
            nm == layout.len(),
            k <= nm,
            out@ == mon_header + encode_monitor_blocks(layout@.take(k as int)),
        decreases nm - k,
    {
        proof {
            assert(layout@.take(k as int + 1).drop_last() =~= layout@.take(k as int));
            assert(layout@.take(k as int + 1).last() == layout@[k as int]);
        }
        let m = layout[k];
        push_be32(&mut out, m.x1 as u32);
        push_be32(&mut out, m.y1 as u32);
        push_be32(&mut out, m.x2 as u32);
        push_be32(&mut out, m.y2 as u32);
        push_be32(&mut out, m.width);
        push_be32(&mut out, m.height);
        push_be32(&mut out, m.initial_width);
        push_be32(&mut out, m.initial_height);
        proof {
            assert(out@ =~= mon_header + encode_monitor_blocks(layout@.take(k as int + 1)));
        }
        k = k + 1;
    }
    proof {
        assert(layout@.take(nm as int) =~= layout@);
        assert(out@ =~= cfg_part + encode_monitors(layout@));
    }
    let ghost pre_source = out@;
    let ns = source.len();
    let mut j: usize = 0;
    while j < ns
        invariant
            ns == source.len(),
            j <= ns,
            out@ == pre_source + source@.take(j as int),
        decreases ns - j,
    {
        out.push(source[j]);
        proof {
            assert(out@ =~= pre_source + source@.take(j as int + 1));
        }
        j = j + 1;
    }
    proof {
        assert(source@.take(ns as int) =~= source@);
        assert(out@ =~= encode_run_input(*c, layout@, source@));
    }
    out
}

/// Appends a length-prefixed name.
fn push_str_bytes(out: &mut Vec<u8>, s: &String)
    ensures
        final(out)@ == old(out)@ + encode_str(s@),
{
    let n = s.as_str().unicode_len();
    push_be32(out, n as u32);
    let ghost start = out@;
    let mut i: usize = 0;
    while i < n
        invariant
            n == s@.len(),
            i <= n,
            out@ == start + encode_chars(s@.take(i as int)),
        decreases n - i,
    {
        proof {
            assert(s@.take(i as int + 1).drop_last() =~= s@.take(i as int));
            assert(s@.take(i as int + 1).last() == s@[i as int]);
        }
        let c = s.as_str().get_char(i);
        push_be32(out, c as u32);
        proof {
            assert(out@ =~= start + encode_chars(s@.take(i as int + 1)));
        }
        i = i + 1;
    }
    proof {
        assert(s@.take(n as int) =~= s@);
        assert(final(out)@ =~= old(out)@ + encode_str(s@));
    }
}

/// The lowercase hexadecimal digest the cache key is: a name for what the
/// BLAKE3 hash of a byte sequence is.
pub uninterp spec fn blake3_hex_of(bytes: Seq<u8>) -> Seq<char>;

/// Relies on `blake3::hash` and `blake3::Hash::to_hex`: the digest depends
/// on the input bytes alone, and its hex form is 64 characters drawn from
/// a lowercase hexadecimal table.
#[verifier::external_body]
fn blake3_hex(bytes: &Vec<u8>) -> (r: String)
    ensures
        r@ == blake3_hex_of(bytes@),
        r@.len() == 64,
        forall|i: int|
            0 <= i < r@.len() ==> (('0' <= #[trigger] r@[i] && r@[i] <= '9') || ('a' <= r@[i]
                && r@[i] <= 'f')),
{
    blake3::hash(bytes.as_slice()).to_hex().as_str().to_owned()
}

/// Computes the cache key of one run: the digest of the canonical
/// encoding of the relevant configuration, the resolved monitor set, and
/// the raw source image bytes.
pub fn cache_key(c: &Config, layout: &Vec<MonitorXY>, source: &Vec<u8>) -> (r: String)
    ensures
        r@ == blake3_hex_of(encode_run_input(*c, layout@, source@)),
        r@.len() == 64,
        forall|i: int|
            0 <= i < r@.len() ==> (('0' <= #[trigger] r@[i] && r@[i] <= '9') || ('a' <= r@[i]
                && r@[i] <= 'f')),
{
    let bytes = encode_run_input_bytes(c, layout, source);
    blake3_hex(&bytes)
}

/// Regeneration happens exactly when it is forced or the cache does not
/// match.
pub fn decide_regenerate(force_resplit: bool, caches_present: bool) -> (r: bool)
    ensures
        r == (force_resplit || !caches_present),
{
    force_resplit || !caches_present
}

/// Splitting a concatenation at equal lengths splits it uniquely.
proof fn lemma_concat_parts(a1: Seq<u8>, b1: Seq<u8>, a2: Seq<u8>, b2: Seq<u8>)
    requires
        a1.len() == a2.len(),
        a1 + b1 == a2 + b2,
    ensures
        a1 == a2,
        b1 == b2,
{
    assert((a1 + b1).len() == a1.len() + b1.len());
    assert((a2 + b2).len() == a2.len() + b2.len());
    assert(b1.len() == b2.len());
    assert(a1 =~= a2) by {
        assert forall|i: int| 0 <= i < a1.len() implies a1[i] == a2[i] by {
            assert((a1 + b1)[i] == a1[i]);
            assert((a2 + b2)[i] == a2[i]);
        }
    }
    assert(b1 =~= b2) by {
        assert forall|i: int| 0 <= i < b1.len() implies b1[i] == b2[i] by {
            let j = a1.len() as int + i;
            assert((a1 + b1)[j] == b1[j - a1.len()]);
            assert((a2 + b2)[j] == b2[j - a2.len()]);
        }
    }
}

/// The two configurations agree on every field the cache key reads.
pub open spec fn relevant_config_eq(c1: Config, c2: Config) -> bool {
    &&& c1.align == c2.align
    &&& c1.bezel == c2.bezel
    &&& c1.palette == c2.palette
    &&& c1.backend == c2.backend
    &&& c1.locker == c2.locker
    &&& c1.diagonals@.len() == c2.diagonals@.len()
    &&& forall|i: int|
        0 <= i < c1.diagonals@.len() ==> (#[trigger] c1.diagonals@[i].0)@ == c2.diagonals@[i].0@
            && c1.diagonals@[i].1 == c2.diagonals@[i].1
}

/// Congruent diagonal lists encode identically.
proof fn lemma_encode_diagonals_congruent(d1: Seq<(String, u32)>, d2: Seq<(String, u32)>)
    requires
        d1.len() == d2.len(),
        forall|i: int|
            0 <= i < d1.len() ==> (#[trigger] d1[i].0)@ == d2[i].0@ && d1[i].1 == d2[i].1,
    ensures
        encode_diagonal_entries(d1) == encode_diagonal_entries(d2),
    decreases d1.len(),
{
    if d1.len() > 0 {
        lemma_encode_diagonals_congruent(d1.drop_last(), d2.drop_last());
        assert(d1.last().0@ == d2.last().0@ && d1.last().1 == d2.last().1);
    }
}

/// Configurations that agree on the relevant fields encode identically.
proof fn lemma_encode_config_congruent(c1: Config, c2: Config)
    requires
        relevant_config_eq(c1, c2),
    ensures
        encode_config(c1) == encode_config(c2),
{
    lemma_encode_diagonals_congruent(c1.diagonals@, c2.diagonals@);
}

/// Cache idempotence: two runs whose relevant configuration fields, whose
/// resolved monitor sets and whose source bytes coincide hash the same
/// input, so they produce the same cache key; with the cache valid and no
/// forced resplit, no regeneration happens on the second run.
pub proof fn lemma_cache_idempotent(c1: Config, c2: Config, layout: Seq<MonitorXY>, source: Seq<
    u8,
>)
    requires
        relevant_config_eq(c1, c2),
    ensures
        blake3_hex_of(encode_run_input(c1, layout, source)) == blake3_hex_of(
            encode_run_input(c2, layout, source),
        ),
{
    lemma_encode_config_congruent(c1, c2);
}

/// Cache sensitivity to the alignment: with everything else equal, a
/// different alignment selection gives a different hash input.
pub proof fn lemma_key_input_alignment_sensitive(
    c1: Config,
    c2: Config,
    layout: Seq<MonitorXY>,
    source: Seq<u8>,
)
    requires
        c1.align != c2.align,
    ensures
        encode_run_input(c1, layout, source) != encode_run_input(c2, layout, source),
{
    let e1 = encode_run_input(c1, layout, source);
    let e2 = encode_run_input(c2, layout, source);
    assert(e1[0] == align_code(c1.align));
    assert(e2[0] == align_code(c2.align));
    if e1 == e2 {
        lemma_align_code_injective(c1.align, c2.align);
    }
}

/// Cache sensitivity to the bezel amount: with everything else equal, a
/// different bezel setting gives a different hash input.
pub proof fn lemma_key_input_bezel_sensitive(
    c1: Config,
    c2: Config,
    layout: Seq<MonitorXY>,
    source: Seq<u8>,
)
    requires
        c1.bezel != c2.bezel,
    ensures
        encode_run_input(c1, layout, source) != encode_run_input(c2, layout, source),
{
    let e1 = encode_run_input(c1, layout, source);
    let e2 = encode_run_input(c2, layout, source);
    let b1 = encode_bezel(c1.bezel);
    let b2 = encode_bezel(c2.bezel);
    assert(b1.len() == 5 && b2.len() == 5);
    assert(e1[1] == b1[0] && e1[2] == b1[1] && e1[3] == b1[2] && e1[4] == b1[3] && e1[5] == b1[4]);
    assert(e2[1] == b2[0] && e2[2] == b2[1] && e2[3] == b2[2] && e2[4] == b2[3] && e2[5] == b2[4]);
    if e1 == e2 {
        assert(b1 =~= b2);
        lemma_encode_bezel_injective(c1.bezel, c2.bezel);
    }
}

/// The monitor blocks are 32 bytes each.
proof fn lemma_blocks_len(ms: Seq<MonitorXY>)
    ensures
        encode_monitor_blocks(ms).len() == 32 * ms.len(),
    decreases ms.len(),
{
    if ms.len() > 0 {
        lemma_blocks_len(ms.drop_last());
    }
}

/// A monitor block determines the monitor.
proof fn lemma_encode_monitor_injective(m1: MonitorXY, m2: MonitorXY)
    requires
        encode_monitor(m1) == encode_monitor(m2),
    ensures
        m1 == m2,
{
    let e1 = encode_monitor(m1);
    let e2 = encode_monitor(m2);
    assert(be32(bits32(m1.x1)) =~= be32(bits32(m2.x1))) by {
        assert forall|i: int| 0 <= i < 4 implies be32(bits32(m1.x1))[i] == be32(
            bits32(m2.x1),
        )[i] by {
            assert(e1[i] == be32(bits32(m1.x1))[i]);
            assert(e2[i] == be32(bits32(m2.x1))[i]);
        }
    }
    lemma_be32_injective(bits32(m1.x1), bits32(m2.x1));
    lemma_bits32_injective(m1.x1, m2.x1);
    assert(be32(bits32(m1.y1)) =~= be32(bits32(m2.y1))) by {
        assert forall|i: int| 0 <= i < 4 implies be32(bits32(m1.y1))[i] == be32(
            bits32(m2.y1),
        )[i] by {
            assert(e1[4 + i] == be32(bits32(m1.y1))[i]);
            assert(e2[4 + i] == be32(bits32(m2.y1))[i]);
        }
    }
    lemma_be32_injective(bits32(m1.y1), bits32(m2.y1));
    lemma_bits32_injective(m1.y1, m2.y1);
    assert(be32(bits32(m1.x2)) =~= be32(bits32(m2.x2))) by {
        assert forall|i: int| 0 <= i < 4 implies be32(bits32(m1.x2))[i] == be32(
            bits32(m2.x2),
        )[i] by {
            assert(e1[8 + i] == be32(bits32(m1.x2))[i]);
            assert(e2[8 + i] == be32(bits32(m2.x2))[i]);
        }
    }
    lemma_be32_injective(bits32(m1.x2), bits32(m2.x2));
    lemma_bits32_injective(m1.x2, m2.x2);
    assert(be32(bits32(m1.y2)) =~= be32(bits32(m2.y2))) by {
        assert forall|i: int| 0 <= i < 4 implies be32(bits32(m1.y2))[i] == be32(
            bits32(m2.y2),
        )[i] by {
            assert(e1[12 + i] == be32(bits32(m1.y2))[i]);
            assert(e2[12 + i] == be32(bits32(m2.y2))[i]);
        }
    }
    lemma_be32_injective(bits32(m1.y2), bits32(m2.y2));
    lemma_bits32_injective(m1.y2, m2.y2);
    assert(be32(m1.width) =~= be32(m2.width)) by {
        assert forall|i: int| 0 <= i < 4 implies be32(m1.width)[i] == be32(m2.width)[i] by {
            assert(e1[16 + i] == be32(m1.width)[i]);
            assert(e2[16 + i] == be32(m2.width)[i]);
        }
    }
    lemma_be32_injective(m1.width, m2.width);
    assert(be32(m1.height) =~= be32(m2.height)) by {
        assert forall|i: int| 0 <= i < 4 implies be32(m1.height)[i] == be32(m2.height)[i] by {
            assert(e1[20 + i] == be32(m1.height)[i]);
            assert(e2[20 + i] == be32(m2.height)[i]);
        }
    }
    lemma_be32_injective(m1.height, m2.height);
    assert(be32(m1.initial_width) =~= be32(m2.initial_width)) by {
        assert forall|i: int| 0 <= i < 4 implies be32(m1.initial_width)[i] == be32(
            m2.initial_width,
        )[i] by {
            assert(e1[24 + i] == be32(m1.initial_width)[i]);
            assert(e2[24 + i] == be32(m2.initial_width)[i]);
        }
    }
    lemma_be32_injective(m1.initial_width, m2.initial_width);
    assert(be32(m1.initial_height) =~= be32(m2.initial_height)) by {
        assert forall|i: int| 0 <= i < 4 implies be32(m1.initial_height)[i] == be32(
            m2.initial_height,
        )[i] by {
            assert(e1[28 + i] == be32(m1.initial_height)[i]);
            assert(e2[28 + i] == be32(m2.initial_height)[i]);
        }
    }
    lemma_be32_injective(m1.initial_height, m2.initial_height);
}

/// Equal block sequences of equally many monitors mean equal monitors.
proof fn lemma_blocks_equal_pointwise(l1: Seq<MonitorXY>, l2: Seq<MonitorXY>, k: int)
    requires
        l1.len() == l2.len(),
        encode_monitor_blocks(l1) == encode_monitor_blocks(l2),
        0 <= k < l1.len(),
    ensures
        l1[k] == l2[k],
    decreases l1.len(),
{
    lemma_blocks_len(l1.drop_last());
    lemma_blocks_len(l2.drop_last());
    lemma_concat_parts(
        encode_monitor_blocks(l1.drop_last()),
        encode_monitor(l1.last()),
        encode_monitor_blocks(l2.drop_last()),
        encode_monitor(l2.last()),
    );
    if k == l1.len() - 1 {
        lemma_encode_monitor_injective(l1.last(), l2.last());
    } else {
        lemma_blocks_equal_pointwise(l1.drop_last(), l2.drop_last(), k);
    }
}

/// Cache sensitivity to the layout: with the same configuration and
/// source, a change in any resolved monitor's box gives a different hash
/// input.
pub proof fn lemma_key_input_layout_sensitive(
    c: Config,
    l1: Seq<MonitorXY>,
    l2: Seq<MonitorXY>,
    source: Seq<u8>,
    k: int,
)
    requires
        l1.len() == l2.len(),
        0 <= k < l1.len(),
        l1[k] != l2[k],
    ensures
        encode_run_input(c, l1, source) != encode_run_input(c, l2, source),
{
    if encode_run_input(c, l1, source) == encode_run_input(c, l2, source) {
        assert(encode_config(c) + (encode_monitors(l1) + source) =~= encode_run_input(
            c,
            l1,
            source,
        ));
        assert(encode_config(c) + (encode_monitors(l2) + source) =~= encode_run_input(
            c,
            l2,
            source,
        ));
        lemma_concat_parts(
            encode_config(c),
            encode_monitors(l1) + source,
            encode_config(c),
            encode_monitors(l2) + source,
        );
        lemma_blocks_len(l1);
        lemma_blocks_len(l2);
        lemma_concat_parts(encode_monitors(l1), source, encode_monitors(l2), source);
        lemma_concat_parts(
            be32(l1.len() as u32),
            encode_monitor_blocks(l1),
            be32(l2.len() as u32),
            encode_monitor_blocks(l2),
        );
        lemma_blocks_equal_pointwise(l1, l2, k);
    }
}

/// Cache sensitivity to the source image: with the same configuration and
/// layout, different source bytes give a different hash input.
pub proof fn lemma_key_input_source_sensitive(
    c: Config,
    layout: Seq<MonitorXY>,
    s1: Seq<u8>,
    s2: Seq<u8>,
)
    requires
        s1 != s2,
    ensures
        encode_run_input(c, layout, s1) != encode_run_input(c, layout, s2),
{
    if encode_run_input(c, layout, s1) == encode_run_input(c, layout, s2) {
        assert(encode_config(c) + (encode_monitors(layout) + s1) =~= encode_run_input(
            c,
            layout,
            s1,
        ));
        assert(encode_config(c) + (encode_monitors(layout) + s2) =~= encode_run_input(
            c,
            layout,
            s2,
        ));
        lemma_concat_parts(
            encode_config(c),
            encode_monitors(layout) + s1,
            encode_config(c),
            encode_monitors(layout) + s2,
        );
        lemma_concat_parts(encode_monitors(layout), s1, encode_monitors(layout), s2);
    }
}

/// The hashed artifact name of one monitor: prefix, monitor name, cache
/// key, extension.
pub open spec fn spec_artifact_name(mon: Seq<char>, hash: Seq<char>) -> Seq<char> {
    "rwps_"@ + mon + "_"@ + hash + ".png"@
}

/// The stable, unhashed alias name of one monitor.
pub open spec fn spec_alias_name(mon: Seq<char>) -> Seq<char> {
    "rwps_"@ + mon + ".png"@
}

/// The sidecar name of a locker configuration.
pub open spec fn spec_locker_conf_name(l: Locker) -> Seq<char> {
    "rwps_"@ + spec_locker_name(l) + ".conf"@
}

/// The sidecar name of the palette file.
pub open spec fn spec_palette_name() -> Seq<char> {
    "rwps_colors.json"@
}

/// Builds the hashed artifact file name of one monitor.
pub fn artifact_file_name(monitor: &String, hash: &String) -> (r: String)
    ensures
        r@ == spec_artifact_name(monitor@, hash@),
{
    let mut s = "rwps_".to_owned();
    s.append(monitor.as_str());
    s.append("_");
    s.append(hash.as_str());
    s.append(".png");
    proof {
        assert(s@ =~= spec_artifact_name(monitor@, hash@));
    }
    s
}

/// Builds the stable alias file name of one monitor.
pub fn alias_file_name(monitor: &String) -> (r: String)
    ensures
        r@ == spec_alias_name(monitor@),
{
    let mut s = "rwps_".to_owned();
    s.append(monitor.as_str());
    s.append(".png");
    proof {
        assert(s@ =~= spec_alias_name(monitor@));
    }
    s
}

/// Builds the locker sidecar file name.
pub fn locker_file_name(l: &Locker) -> (r: String)
    ensures
        r@ == spec_locker_conf_name(*l),
{
    let mut s = "rwps_".to_owned();
    s.append(l.to_string().as_str());
    s.append(".conf");
    proof {
        assert(s@ =~= spec_locker_conf_name(*l));
    }
    s
}

/// Builds the palette sidecar file name.
pub fn palette_file_name() -> (r: String)
    ensures
        r@ == spec_palette_name(),
{
    "rwps_colors.json".to_owned()
}

/// The exact artifact set one run expects: a hashed image per monitor, a
/// locker sidecar when a locker is configured, the palette sidecar when
/// the palette flag is set.
pub open spec fn spec_expected_names(
    monitors: Seq<String>,
    hash: Seq<char>,
    locker: Option<Locker>,
    palette: bool,
) -> Seq<Seq<char>> {
    Seq::new(monitors.len(), |i: int| spec_artifact_name(monitors[i]@, hash)) + (match locker {
        Option::Some(l) => seq![spec_locker_conf_name(l)],
        Option::None => Seq::<Seq<char>>::empty(),
    }) + (if palette {
        seq![spec_palette_name()]
    } else {
        Seq::<Seq<char>>::empty()
    })
}

/// Builds the expected artifact name set of one run.
pub fn expected_names(
    monitor_names: &Vec<String>,
    hash: &String,
    locker: &Option<Locker>,
    palette: bool,
) -> (r: Vec<String>)
    ensures
        r@.len() == spec_expected_names(monitor_names@, hash@, *locker, palette).len(),
        forall|i: int|
            0 <= i < r@.len() ==> (#[trigger] r@[i])@ == spec_expected_names(
                monitor_names@,
                hash@,
                *locker,
                palette,
            )[i],
{
    let ghost full = spec_expected_names(monitor_names@, hash@, *locker, palette);
    let n = monitor_names.len();
    let mut out: Vec<String> = Vec::new();
    let mut k: usize = 0;
    while k < n
        invariant
            n == monitor_names.len(),
            k <= n,
            out@.len() == k,
            forall|i: int|
                0 <= i < k ==> (#[trigger] out@[i])@ == spec_artifact_name(
                    monitor_names@[i]@,
                    hash@,
                ),
        decreases n - k,
    {
        out.push(artifact_file_name(&monitor_names[k], hash));
        k = k + 1;
    }
    if let Option::Some(l) = locker {
        out.push(locker_file_name(l));
    }
    if palette {
        out.push(palette_file_name());
    }
    proof {
        assert(out@.len() == full.len());
        assert forall|i: int| 0 <= i < out@.len() implies (#[trigger] out@[i])@ == full[i] by {
            if i < n {
                assert(full[i] == spec_artifact_name(monitor_names@[i]@, hash@));
            }
        }
    }
    out
}

/// Some name in the list reads as `s`.
pub open spec fn contains_name(v: Seq<String>, s: Seq<char>) -> bool {
    exists|i: int| 0 <= i < v.len() && (#[trigger] v[i])@ == s
}

/// Every name of `a` also occurs in `b`.
pub open spec fn names_subset(a: Seq<String>, b: Seq<String>) -> bool {
    forall|i: int| 0 <= i < a.len() ==> contains_name(b, (#[trigger] a[i])@)
}

/// Does some name in the list read as `s`?
fn vec_contains_name(v: &Vec<String>, s: &String) -> (r: bool)
    ensures
        r == contains_name(v@, s@),
{
    let n = v.len();
    let mut i: usize = 0;
    while i < n
        invariant
            n == v.len(),
            i <= n,
            forall|j: int| 0 <= j < i ==> (#[trigger] v@[j])@ != s@,
        decreases n - i,
    {
        if v[i] == *s {
            return true;
        }
        i = i + 1;
    }
    false
}

/// Does every name of `a` occur in `b`?
fn all_names_in(a: &Vec<String>, b: &Vec<String>) -> (r: bool)
    ensures
        r == names_subset(a@, b@),
{
    let n = a.len();
    let mut i: usize = 0;
    while i < n
        invariant
            n == a.len(),
            i <= n,
            forall|j: int| 0 <= j < i ==> contains_name(b@, (#[trigger] a@[j])@),
        decreases n - i,
    {
        if !vec_contains_name(b, &a[i]) {
            return false;
        }
        i = i + 1;
    }
    true
}

/// Cache validity: exact set equality between the artifact names found on
/// disk and the expected set.  An extra stale file and a missing expected
/// file both invalidate.
pub fn cache_valid(found: &Vec<String>, expected: &Vec<String>) -> (r: bool)
    ensures
        r == (names_subset(found@, expected@) && names_subset(expected@, found@)),
{
    all_names_in(found, expected) && all_names_in(expected, found)
}

/// A run that finds exactly its own expected artifacts sees a valid
/// cache: together with the key determinism of `lemma_cache_idempotent`,
/// a second run over unchanged inputs regenerates nothing.
pub proof fn lemma_own_artifacts_are_valid(e: Seq<String>)
    ensures
        names_subset(e, e),
{
    assert forall|i: int| 0 <= i < e.len() implies contains_name(e, (#[trigger] e[i])@) by {
        assert(0 <= i < e.len() && e[i]@ == e[i]@);
    }
}

/// Does this file name belong to the tool: does it carry the artifact
/// prefix?  Cleanup removes every such file before regenerating.
pub fn is_cache_artifact(name: &String) -> (r: bool)
    ensures
        r == (name@.len() >= 5 && name@.subrange(0, 5) == "rwps_"@),
{
    let s = name.as_str();
    let n = s.unicode_len();
    if n < 5 {
        return false;
    }
    proof {
        reveal_strlit("rwps_");
    }
    let ok = s.get_char(0) == 'r' && s.get_char(1) == 'w' && s.get_char(2) == 'p' && s.get_char(3)
        == 's' && s.get_char(4) == '_';
    proof {
        assert(name@.subrange(0, 5)[0] == name@[0]);
        assert(name@.subrange(0, 5)[1] == name@[1]);
        assert(name@.subrange(0, 5)[2] == name@[2]);
        assert(name@.subrange(0, 5)[3] == name@[3]);
        assert(name@.subrange(0, 5)[4] == name@[4]);
        if ok {
            assert(name@.subrange(0, 5) =~= "rwps_"@);
        }
    }
    ok
}

} // verus!
