use vstd::prelude::*;

verus! {

use vstd::string::StringSliceAdditionalSpecFns;
use crate::bundle::{Thumbnail, ThumbnailV};
use crate::bytes::dec_rep;

/// The ASCII hex digit of `n` (lower case).
pub open spec fn hex_digit(n: int) -> u8 {
    if n < 10 {
        (48 + n) as u8
    } else {
        (87 + n) as u8
    }
}

/// How one byte appears inside a JSON string: quote and backslash escaped,
/// the five control bytes with short escapes written as those, every other
/// control byte as `\u00XX`, everything else as itself.
pub open spec fn esc_byte(b: u8) -> Seq<u8> {
    if b == 34 {
        seq![92u8, 34u8]
    } else if b == 92 {
        seq![92u8, 92u8]
    } else if b == 8 {
        seq![92u8, 98u8]
    } else if b == 9 {
        seq![92u8, 116u8]
    } else if b == 10 {
        seq![92u8, 110u8]
    } else if b == 12 {
        seq![92u8, 102u8]
    } else if b == 13 {
        seq![92u8, 114u8]
    } else if b < 32 {
        seq![92u8, 117u8, 48u8, 48u8, hex_digit(b as int / 16), hex_digit(b as int % 16)]
    } else {
        seq![b]
    }
}

/// A byte string escaped for use inside a JSON string literal.
pub open spec fn esc(s: Seq<u8>) -> Seq<u8>
    decreases s.len(),
{
    if s.len() == 0 {
        Seq::empty()
    } else {
        esc(s.drop_last()) + esc_byte(s.last())
    }
}

fn push_escaped(out: &mut Vec<u8>, s: &Vec<u8>)
    ensures
        final(out)@ == old(out)@ + esc(s@),
{
    let n = s.len();
    let mut i: usize = 0;
    assert(out@ =~= old(out)@ + esc(s@.take(0)));
    while i < n
        invariant
            i <= n,
            n == s@.len(),
            out@ == old(out)@ + esc(s@.take(i as int)),
        decreases n - i,
    {
        let ghost pre = out@;
        let b = s[i];
        if b == 34 {
            out.push(92);
            out.push(34);
        } else if b == 92 {
            out.push(92);
            out.push(92);
        } else if b == 8 {
            out.push(92);
            out.push(98);
        } else if b == 9 {
            out.push(92);
            out.push(116);
        } else if b == 10 {
            out.push(92);
            out.push(110);
        } else if b == 12 {
            out.push(92);
            out.push(102);
        } else if b == 13 {
            out.push(92);
            out.push(114);
        } else if b < 32 {
            out.push(92);
            out.push(117);
            out.push(48);
            out.push(48);
            let hi = b / 16;
            let lo = b % 16;
            out.push(if hi < 10 { 48 + hi } else { 87 + hi });
            out.push(if lo < 10 { 48 + lo } else { 87 + lo });
        } else {
            out.push(b);
        }
        proof {
            assert(out@ =~= pre + esc_byte(s@[i as int]));
            assert(s@.take(i as int + 1).drop_last() =~= s@.take(i as int));
            assert(s@.take(i as int + 1).last() == s@[i as int]);
            assert(out@ =~= old(out)@ + esc(s@.take(i as int + 1)));
        }
        i = i + 1;
    }
    assert(s@.take(n as int) =~= s@);
}

/// The bytes of an ASCII literal.
pub open spec fn lit(s: &str) -> Seq<u8> {
    s.spec_bytes()
}

/// One sidecar entry rendered as a pretty-printed JSON object.
pub open spec fn spec_entry_json(t: ThumbnailV) -> Seq<u8> {
    lit("  {\n    \"relative_base_path\": \"") + esc(t.relative_base_path) + lit(
        "\",\n    \"absolute_base_path\": \"",
    ) + esc(t.absolute_base_path) + lit("\",\n    \"thumbnail_name\": \"") + esc(
        t.thumbnail_name,
    ) + lit("\",\n    \"position_x\": ") + dec_rep(t.position_x as nat) + lit(
        ",\n    \"width\": ",
    ) + dec_rep(t.width as nat) + lit(",\n    \"height\": ") + dec_rep(t.height as nat) + lit(
        ",\n    \"original_name\": \"",
    ) + esc(t.original_name) + lit("\",\n    \"file_size\": ") + dec_rep(t.file_size as nat)
        + lit("\n  }")
}

/// The values of a sequence of sidecar entries.
pub open spec fn thumb_views(s: Seq<Thumbnail>) -> Seq<ThumbnailV> {
    s.map_values(|t: Thumbnail| t@)
}

/// The entries of the sidecar array, joined by `,\n`.
pub open spec fn spec_sidecar_body(entries: Seq<ThumbnailV>) -> Seq<u8>
    decreases entries.len(),
{
    if entries.len() == 0 {
        Seq::empty()
    } else if entries.len() == 1 {
        spec_entry_json(entries[0])
    } else {
        spec_sidecar_body(entries.drop_last()) + lit(",\n") + spec_entry_json(entries.last())
    }
}

/// The whole sidecar document: a pretty-printed JSON array of the entries,
/// in the given order.
pub open spec fn spec_sidecar(entries: Seq<ThumbnailV>) -> Seq<u8> {
    if entries.len() == 0 {
        lit("[]")
    } else {
        lit("[\n") + spec_sidecar_body(entries) + lit("\n]")
    }
}

fn push_entry(out: &mut Vec<u8>, t: &Thumbnail)
    ensures
        final(out)@ == old(out)@ + spec_entry_json(t@),
{
    crate::bytes::push_str_bytes(out, "  {\n    \"relative_base_path\": \"");
    push_escaped(out, &t.relative_base_path);
    crate::bytes::push_str_bytes(out, "\",\n    \"absolute_base_path\": \"");
    push_escaped(out, &t.absolute_base_path);
    crate::bytes::push_str_bytes(out, "\",\n    \"thumbnail_name\": \"");
    push_escaped(out, &t.thumbnail_name);
    crate::bytes::push_str_bytes(out, "\",\n    \"position_x\": ");
    let d1 = crate::bytes::u32_dec(t.position_x);
    crate::bytes::push_bytes(out, d1.as_slice());
    crate::bytes::push_str_bytes(out, ",\n    \"width\": ");
    let d2 = crate::bytes::u32_dec(t.width);
    crate::bytes::push_bytes(out, d2.as_slice());
    crate::bytes::push_str_bytes(out, ",\n    \"height\": ");
    let d3 = crate::bytes::u32_dec(t.height);
    crate::bytes::push_bytes(out, d3.as_slice());
    crate::bytes::push_str_bytes(out, ",\n    \"original_name\": \"");
    push_escaped(out, &t.original_name);
    crate::bytes::push_str_bytes(out, "\",\n    \"file_size\": ");
    let d4 = crate::bytes::u32_dec(t.file_size);
    crate::bytes::push_bytes(out, d4.as_slice());
    crate::bytes::push_str_bytes(out, "\n  }");
    assert(out@ =~= old(out)@ + spec_entry_json(t@));
}

/// Serializes the ordered sidecar entries as the `bundles.json` document: a
/// human-readable JSON array with one object per entry, in entry order.
pub fn render_sidecar(entries: &Vec<Thumbnail>) -> (r: Vec<u8>)
    ensures
        r@ == spec_sidecar(thumb_views(entries@)),
{
    let ghost tv = thumb_views(entries@);
    let n = entries.len();
    let mut out: Vec<u8> = Vec::new();
    if n == 0 {
        crate::bytes::push_str_bytes(&mut out, "[]");
        assert(out@ =~= lit("[]"));
        return out;
    }
    crate::bytes::push_str_bytes(&mut out, "[\n");
    push_entry(&mut out, &entries[0]);
    proof {
        assert(tv.take(1).len() == 1);
        assert(tv.take(1)[0] == tv[0]);
        assert(out@ =~= lit("[\n") + spec_sidecar_body(tv.take(1)));
    }
    let mut i: usize = 1;
    while i < n
        invariant
            1 <= i <= n,
            n == entries@.len(),
            tv == thumb_views(entries@),
            out@ == lit("[\n") + spec_sidecar_body(tv.take(i as int)),
        decreases n - i,
    {
        crate::bytes::push_str_bytes(&mut out, ",\n");
        push_entry(&mut out, &entries[i]);
        proof {
            assert(tv.take(i as int + 1).drop_last() =~= tv.take(i as int));
            assert(tv.take(i as int + 1).last() == tv[i as int]);
            assert(tv.take(i as int + 1).len() == i + 1 >= 2);
            assert(out@ =~= lit("[\n") + spec_sidecar_body(tv.take(i as int + 1)));
        }
        i = i + 1;
    }
    crate::bytes::push_str_bytes(&mut out, "\n]");
    proof {
        assert(tv.take(n as int) =~= tv);
        assert(out@ =~= lit("[\n") + spec_sidecar_body(tv) + lit("\n]"));
    }
    out
}

} // verus!
