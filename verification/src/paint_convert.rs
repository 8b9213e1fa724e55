//! The per-triangle paint bitstream codec and the color remapping
//! built on it.
//!
//! A paint string is hexadecimal and is read as a sequence of nibbles
//! from its last character to its first. Each leaf node is one nibble:
//! the low two bits are the split marker (a non-zero value marks a
//! subdivided triangle, which this codec does not support) and the
//! high two bits are a simple color 0..2, or the escape value 3, in
//! which case the next nibble of the stream holds `color - 3`.

use vstd::prelude::*;

use crate::Error;
use crate::mesh::Mesh;
use crate::model::ObjectData;
use crate::model_orca::OrcaModel;
use crate::utils::strip_lead;

verus! {

/// The largest color index the codec can represent: an extended
/// escape stores `color - 3` in one nibble.
pub const MAX_COLOR: usize = 18;

/// An uppercase hexadecimal digit.
pub open spec fn is_hex_digit_char(c: char) -> bool {
    (48 <= c as int && c as int <= 57) || (65 <= c as int && c as int <= 70)
}

/// Every character of the string is an uppercase hexadecimal digit.
pub open spec fn all_hex(s: Seq<char>) -> bool {
    forall|i: int| 0 <= i < s.len() ==> is_hex_digit_char(#[trigger] s[i])
}

/// The value of a hexadecimal digit character.
pub open spec fn hex_char_val(c: char) -> int {
    if c as int <= 57 {
        c as int - 48
    } else {
        c as int - 55
    }
}

/// The nibble stream of a paint string: digit values read from the
/// last character to the first.
pub open spec fn nibbles_of(s: Seq<char>) -> Seq<int> {
    Seq::new(s.len(), |i: int| hex_char_val(s[s.len() - 1 - i]))
}

/// Decodes a nibble stream into its sequence of leaf colors, or the
/// error the stream deserves: a non-zero split marker is an
/// unsupported subdivided triangle, and an escape nibble without a
/// successor is a truncated (malformed) string.
pub open spec fn decode_nibbles(ns: Seq<int>) -> Result<Seq<int>, Error>
    decreases ns.len(),
{
    if ns.len() == 0 {
        Result::Ok(Seq::empty())
    } else {
        let n = ns[0];
        if n % 4 != 0 {
            Result::Err(Error::UnsupportedPaintStructure)
        } else if n / 4 < 3 {
            match decode_nibbles(ns.skip(1)) {
                Result::Ok(rest) => Result::Ok(seq![n / 4] + rest),
                Result::Err(e) => Result::Err(e),
            }
        } else if ns.len() < 2 {
            Result::Err(Error::MalformedPaintString)
        } else {
            match decode_nibbles(ns.skip(2)) {
                Result::Ok(rest) => Result::Ok(seq![ns[1] + 3] + rest),
                Result::Err(e) => Result::Err(e),
            }
        }
    }
}

/// Substitutes one color through the remap table; a color outside the
/// table, or mapped to nothing, is kept.
pub open spec fn remap_color(c: int, table: Seq<Option<usize>>) -> int {
    if 0 <= c < table.len() && table[c] is Some {
        table[c]->0 as int
    } else {
        c
    }
}

/// Substitutes every color of the sequence through the remap table.
pub open spec fn remap_colors(cs: Seq<int>, table: Seq<Option<usize>>) -> Seq<int> {
    cs.map_values(|c: int| remap_color(c, table))
}

/// The nibbles of one color: a simple color 0..2 sits in the high two
/// bits of one nibble; a larger color is the escape nibble followed by
/// `color - 3`.
pub open spec fn encode_color_nibbles(c: int) -> Seq<int> {
    if c < 3 {
        seq![4 * c]
    } else {
        seq![12, c - 3]
    }
}

/// The nibble stream encoding a sequence of leaf colors.
pub open spec fn encode_colors(cs: Seq<int>) -> Seq<int>
    decreases cs.len(),
{
    if cs.len() == 0 {
        Seq::empty()
    } else {
        encode_color_nibbles(cs[0]) + encode_colors(cs.skip(1))
    }
}

/// The ASCII code of a hexadecimal digit, uppercase.
pub open spec fn hex_byte_of(n: int) -> int {
    if n < 10 {
        48 + n
    } else {
        55 + n
    }
}

/// The character of a hexadecimal digit, uppercase.
pub open spec fn hex_char_of(n: int) -> char {
    (hex_byte_of(n) as u8) as char
}

/// The paint string of a nibble stream: characters are written back
/// to front, so the first nibble of the stream is the last character.
pub open spec fn chars_of_nibbles(ns: Seq<int>) -> Seq<char> {
    Seq::new(ns.len(), |i: int| hex_char_of(ns[ns.len() - 1 - i]))
}

/// What color remapping returns for a whole paint string: the decoded
/// leaf colors are substituted through the table and re-encoded.
pub open spec fn convert_paint_spec(s: Seq<char>, table: Seq<Option<usize>>) -> Result<
    Seq<char>,
    Error,
> {
    if !all_hex(s) {
        Result::Err(Error::MalformedPaintString)
    } else {
        match decode_nibbles(nibbles_of(s)) {
            Result::Ok(cs) => Result::Ok(
                chars_of_nibbles(encode_colors(remap_colors(cs, table))),
            ),
            Result::Err(e) => Result::Err(e),
        }
    }
}

/// Every entry of a remap table stays within what the codec can
/// re-encode.
pub open spec fn table_in_range(table: Seq<Option<usize>>) -> bool {
    forall|i: int|
        0 <= i < table.len() ==> ((#[trigger] table[i]) matches Some(v) ==> v <= MAX_COLOR)
}

/// The integer values of a 32-bit word sequence.
pub open spec fn u32_vals(s: Seq<u32>) -> Seq<int> {
    s.map_values(|x: u32| x as int)
}

/// Encoding distributes over appending one color at the end.
proof fn lemma_encode_snoc(cs: Seq<int>, x: int)
    ensures
        encode_colors(cs.push(x)) == encode_colors(cs) + encode_color_nibbles(x),
    decreases cs.len(),
{
    if cs.len() == 0 {
        assert(cs.push(x).skip(1) =~= Seq::<int>::empty());
        assert(encode_colors(Seq::<int>::empty()) =~= Seq::<int>::empty());
        assert(cs =~= Seq::<int>::empty());
        assert(cs.push(x)[0] == x);
        assert(encode_colors(cs.push(x)) =~= encode_colors(cs) + encode_color_nibbles(x));
    } else {
        assert(cs.push(x).skip(1) =~= cs.skip(1).push(x));
        lemma_encode_snoc(cs.skip(1), x);
        assert(cs.push(x)[0] == cs[0]);
        assert(encode_colors(cs.push(x)) =~= encode_colors(cs) + encode_color_nibbles(x));
    }
}

/// Re-encoding the decoded colors reproduces the nibble stream: every
/// stream the decoder accepts is in the exact two-case layout that the
/// encoder emits.
proof fn lemma_decode_encode(ns: Seq<int>)
    requires
        decode_nibbles(ns) is Ok,
        forall|i: int| 0 <= i < ns.len() ==> 0 <= #[trigger] ns[i] < 16,
    ensures
        encode_colors(decode_nibbles(ns)->Ok_0) == ns,
    decreases ns.len(),
{
    if ns.len() == 0 {
        assert(encode_colors(decode_nibbles(ns)->Ok_0) =~= ns);
    } else {
        let n = ns[0];
        if n / 4 < 3 {
            lemma_decode_encode(ns.skip(1));
            let rest = decode_nibbles(ns.skip(1))->Ok_0;
            assert(decode_nibbles(ns)->Ok_0 == seq![n / 4] + rest);
            assert((seq![n / 4] + rest)[0] == n / 4);
            assert((seq![n / 4] + rest).skip(1) =~= rest);
            assert(encode_color_nibbles(n / 4) =~= seq![n]);
            assert(encode_colors(seq![n / 4] + rest) =~= ns);
        } else {
            lemma_decode_encode(ns.skip(2));
            let rest = decode_nibbles(ns.skip(2))->Ok_0;
            assert(decode_nibbles(ns)->Ok_0 == seq![ns[1] + 3] + rest);
            assert((seq![ns[1] + 3] + rest)[0] == ns[1] + 3);
            assert((seq![ns[1] + 3] + rest).skip(1) =~= rest);
            assert(encode_color_nibbles(ns[1] + 3) =~= seq![12, ns[1]]);
            assert(n == 12);
            assert(encode_colors(seq![ns[1] + 3] + rest) =~= ns);
        }
    }
}

/// Turning a hexadecimal string into nibbles and back gives the same
/// string.
proof fn lemma_chars_nibbles_id(s: Seq<char>)
    requires
        all_hex(s),
    ensures
        chars_of_nibbles(nibbles_of(s)) == s,
{
    assert forall|i: int| 0 <= i < s.len() implies chars_of_nibbles(nibbles_of(s))[i] == s[i] by {
        let n = s.len() as int;
        assert(nibbles_of(s)[n - 1 - i] == hex_char_val(s[i]));
        assert(is_hex_digit_char(s[i]));
    }
    assert(chars_of_nibbles(nibbles_of(s)) =~= s);
}

/// Decoded colors lie within what the codec can re-encode.
proof fn lemma_decode_bounds(ns: Seq<int>)
    requires
        decode_nibbles(ns) is Ok,
        forall|i: int| 0 <= i < ns.len() ==> 0 <= #[trigger] ns[i] < 16,
    ensures
        forall|i: int|
            0 <= i < decode_nibbles(ns)->Ok_0.len() ==> 0 <= #[trigger] decode_nibbles(
                ns,
            )->Ok_0[i] <= MAX_COLOR,
    decreases ns.len(),
{
    if ns.len() == 0 {
    } else {
        let n = ns[0];
        if n / 4 < 3 {
            lemma_decode_bounds(ns.skip(1));
        } else {
            lemma_decode_bounds(ns.skip(2));
        }
    }
}

/// Remapping through a table that is the identity on every decoded
/// color, then re-encoding, reproduces the original string exactly.
///
/// This holds of every string the decoder accepts (no split nodes):
/// the round trip is byte-for-byte.
pub proof fn lemma_remap_identity_roundtrip(s: Seq<char>, table: Seq<Option<usize>>)
    requires
        all_hex(s),
        decode_nibbles(nibbles_of(s)) is Ok,
        forall|i: int|
            0 <= i < decode_nibbles(nibbles_of(s))->Ok_0.len() ==> remap_color(
                #[trigger] decode_nibbles(nibbles_of(s))->Ok_0[i],
                table,
            ) == decode_nibbles(nibbles_of(s))->Ok_0[i],
    ensures
        convert_paint_spec(s, table) == Result::<Seq<char>, Error>::Ok(s),
{
    let ns = nibbles_of(s);
    let cs = decode_nibbles(ns)->Ok_0;
    assert(remap_colors(cs, table) =~= cs);
    assert forall|i: int| 0 <= i < ns.len() implies 0 <= #[trigger] ns[i] < 16 by {
        assert(is_hex_digit_char(s[s.len() - 1 - i]));
    }
    lemma_decode_encode(ns);
    lemma_chars_nibbles_id(s);
}

/// Remaps the leaf colors of one triangle's paint string through the
/// table: each decoded color present in the table is substituted, the
/// result re-encoded in the same two-case nibble layout.
pub fn convert_triangle_color(hex_string: &str, conversions: &Vec<Option<usize>>) -> (r: Result<
    String,
    Error,
>)
    requires
        table_in_range(conversions@),
    ensures
        (match convert_paint_spec(hex_string@, conversions@) {
            Result::Ok(t) => r matches Ok(out) && out@ == t,
            Result::Err(e) => r matches Err(e2) && e2 == e,
        }),
{
    let n = hex_string.unicode_len();
    // Read the string from its last character to its first into the
    // nibble stream, rejecting anything that is not a hex digit.
    let mut digits: Vec<u32> = Vec::new();
    let mut i: usize = 0;
    while i < n
        invariant
            n == hex_string@.len(),
            i <= n,
            digits@.len() == i,
            forall|k: int|
                0 <= k < i ==> is_hex_digit_char(#[trigger] hex_string@[n - 1 - k]),
            forall|k: int|
                0 <= k < i ==> #[trigger] digits@[k] == hex_char_val(hex_string@[n - 1 - k]),
        decreases n - i,
    {
        let c = hex_string.get_char(n - 1 - i);
        let v: u32;
        if '0' <= c && c <= '9' {
            v = c as u32 - 48;
        } else if 'A' <= c && c <= 'F' {
            v = c as u32 - 55;
        } else {
            proof {
                assert(!is_hex_digit_char(hex_string@[n - 1 - i]));
                assert(!all_hex(hex_string@));
            }
            return Result::Err(Error::MalformedPaintString);
        }
        digits.push(v);
        i = i + 1;
    }
    proof {
        assert forall|j: int| 0 <= j < hex_string@.len() implies is_hex_digit_char(
            #[trigger] hex_string@[j],
        ) by {
            let k = n - 1 - j;
            assert(is_hex_digit_char(hex_string@[n - 1 - k]));
        }
        assert(all_hex(hex_string@));
        assert(u32_vals(digits@) =~= nibbles_of(hex_string@));
    }
    let ghost ns = nibbles_of(hex_string@);

    // Decode the stream into its leaf colors.
    let mut colors: Vec<u32> = Vec::new();
    let mut idx: usize = 0;
    proof {
        assert(ns.skip(0) =~= ns);
        if decode_nibbles(ns) is Ok {
            assert(u32_vals(colors@) + decode_nibbles(ns)->Ok_0 =~= decode_nibbles(ns)->Ok_0);
        }
    }
    while idx < digits.len()
        invariant
            idx <= digits@.len(),
            all_hex(hex_string@),
            ns == nibbles_of(hex_string@),
            u32_vals(digits@) == ns,
            forall|k: int| 0 <= k < digits@.len() ==> 0 <= #[trigger] digits@[k] < 16,
            forall|k: int| 0 <= k < colors@.len() ==> #[trigger] colors@[k] <= MAX_COLOR,
            decode_nibbles(ns) == (match decode_nibbles(ns.skip(idx as int)) {
                Result::Ok(rest) => Result::<Seq<int>, Error>::Ok(u32_vals(colors@) + rest),
                Result::Err(e) => Result::<Seq<int>, Error>::Err(e),
            }),
        decreases digits@.len() - idx,
    {
        let d = digits[idx];
        let ghost tail = ns.skip(idx as int);
        proof {
            assert(tail[0] == ns[idx as int]);
        }
        if d % 4 != 0 {
            proof {
                assert(decode_nibbles(tail) == Result::<Seq<int>, Error>::Err(
                    Error::UnsupportedPaintStructure,
                ));
                assert(decode_nibbles(ns) == Result::<Seq<int>, Error>::Err(
                    Error::UnsupportedPaintStructure,
                ));
            }
            return Result::Err(Error::UnsupportedPaintStructure);
        }
        if d / 4 < 3 {
            let ghost cprev = colors@;
            colors.push(d / 4);
            proof {
                assert(tail.skip(1) =~= ns.skip(idx + 1));
                assert(u32_vals(colors@) =~= u32_vals(cprev) + seq![(d / 4) as int]);
                if decode_nibbles(ns.skip(idx + 1)) is Ok {
                    let rest = decode_nibbles(ns.skip(idx + 1))->Ok_0;
                    assert(decode_nibbles(tail) == Result::<Seq<int>, Error>::Ok(
                        seq![(d / 4) as int] + rest,
                    ));
                    assert(u32_vals(cprev) + (seq![(d / 4) as int] + rest) =~= u32_vals(colors@)
                        + rest);
                }
            }
            idx = idx + 1;
        } else {
            // The escape nibble: the color sits in the next nibble.
            if idx + 1 >= digits.len() {
                proof {
                    assert(tail.len() < 2);
                    assert(decode_nibbles(tail) == Result::<Seq<int>, Error>::Err(
                        Error::MalformedPaintString,
                    ));
                    assert(decode_nibbles(ns) == Result::<Seq<int>, Error>::Err(
                        Error::MalformedPaintString,
                    ));
                }
                return Result::Err(Error::MalformedPaintString);
            }
            let d2 = digits[idx + 1];
            let ghost cprev = colors@;
            colors.push(d2 + 3);
            proof {
                assert(tail[1] == ns[idx + 1]);
                assert(tail.skip(2) =~= ns.skip(idx + 2));
                assert(u32_vals(colors@) =~= u32_vals(cprev) + seq![(d2 + 3) as int]);
                if decode_nibbles(ns.skip(idx + 2)) is Ok {
                    let rest = decode_nibbles(ns.skip(idx + 2))->Ok_0;
                    assert(decode_nibbles(tail) == Result::<Seq<int>, Error>::Ok(
                        seq![(d2 + 3) as int] + rest,
                    ));
                    assert(u32_vals(cprev) + (seq![(d2 + 3) as int] + rest) =~= u32_vals(colors@)
                        + rest);
                }
            }
            idx = idx + 2;
        }
    }
    proof {
        assert(ns.skip(idx as int) =~= Seq::<int>::empty());
        assert(decode_nibbles(ns) == Result::<Seq<int>, Error>::Ok(u32_vals(colors@)));
        assert(u32_vals(colors@) + Seq::<int>::empty() =~= u32_vals(colors@));
    }
    let ghost cs = u32_vals(colors@);

    // Substitute each color through the table and re-encode.
    let mut out: Vec<u32> = Vec::new();
    let mut j: usize = 0;
    while j < colors.len()
        invariant
            j <= colors@.len(),
            cs == u32_vals(colors@),
            table_in_range(conversions@),
            forall|k: int| 0 <= k < colors@.len() ==> #[trigger] colors@[k] <= MAX_COLOR,
            forall|k: int| 0 <= k < out@.len() ==> 0 <= #[trigger] out@[k] < 16,
            u32_vals(out@) == encode_colors(remap_colors(cs.take(j as int), conversions@)),
        decreases colors@.len() - j,
    {
        let c = colors[j];
        let m: usize;
        if (c as usize) < conversions.len() {
            match conversions[c as usize] {
                Option::Some(t) => {
                    m = t;
                },
                Option::None => {
                    m = c as usize;
                },
            }
        } else {
            m = c as usize;
        }
        proof {
            assert(m as int == remap_color(cs[j as int], conversions@));
            assert(m <= MAX_COLOR);
            assert(cs.take(j + 1) =~= cs.take(j as int).push(cs[j as int]));
            assert(remap_colors(cs.take(j as int).push(cs[j as int]), conversions@)
                =~= remap_colors(cs.take(j as int), conversions@).push(
                remap_color(cs[j as int], conversions@),
            ));
            lemma_encode_snoc(
                remap_colors(cs.take(j as int), conversions@),
                remap_color(cs[j as int], conversions@),
            );
        }
        if m < 3 {
            out.push(4 * (m as u32));
            proof {
                assert(encode_color_nibbles(m as int) =~= seq![4 * (m as int)]);
                assert(u32_vals(out@) =~= u32_vals(out@.drop_last()) + seq![(4 * m) as int]);
            }
        } else {
            out.push(12);
            out.push((m as u32) - 3);
            proof {
                assert(encode_color_nibbles(m as int) =~= seq![12, m - 3]);
                assert(u32_vals(out@) =~= u32_vals(out@.drop_last().drop_last()) + seq![
                    12int,
                    m - 3,
                ]);
            }
        }
        j = j + 1;
    }
    proof {
        assert(cs.take(colors@.len() as int) =~= cs);
    }
    let ghost out_ns = u32_vals(out@);

    // Write the nibble stream back to front as hexadecimal characters.
    let m = out.len();
    let mut bytes: Vec<u8> = Vec::new();
    let mut k: usize = 0;
    while k < m
        invariant
            m == out@.len(),
            k <= m,
            out_ns == u32_vals(out@),
            forall|t: int| 0 <= t < out@.len() ==> 0 <= #[trigger] out@[t] < 16,
            bytes@.len() == k,
            forall|t: int| 0 <= t < k ==> #[trigger] bytes@[t] < 128,
            forall|t: int|
                0 <= t < k ==> #[trigger] bytes@[t] as int == hex_byte_of(out_ns[m - 1 - t]),
        decreases m - k,
    {
        let nib = out[m - 1 - k];
        let b: u8;
        if nib < 10 {
            b = 48 + (nib as u8);
        } else {
            b = 55 + (nib as u8);
        }
        bytes.push(b);
        k = k + 1;
    }
    let r = crate::utils::ascii_to_string(bytes);
    proof {
        assert forall|t: int| 0 <= t < r@.len() implies r@[t] == chars_of_nibbles(out_ns)[t] by {
            assert(r@[t] == ((hex_byte_of(out_ns[m - 1 - t]) as u8) as char));
        }
        assert(r@ =~= chars_of_nibbles(out_ns));
    }
    Result::Ok(r)
}

/// What remapping an optional paint attribute yields: an absent
/// attribute stays absent; a present one is converted, or the error
/// its string deserves.
pub open spec fn convert_opt_paint_spec(p: Option<String>, table: Seq<Option<usize>>) -> Result<
    Option<Seq<char>>,
    Error,
> {
    match p {
        Option::Some(s) => match convert_paint_spec(s@, table) {
            Result::Ok(t) => Result::Ok(Option::Some(t)),
            Result::Err(e) => Result::Err(e),
        },
        Option::None => Result::Ok(Option::None),
    }
}

/// What remapping a whole mesh yields: the first triangle whose
/// hierarchical-dialect paint string fails decides the error, and
/// success is owed exactly when every painted triangle converts.
pub open spec fn convert_mesh_spec(tris: Seq<crate::mesh::Triangle>, table: Seq<Option<usize>>,)
    -> Result<Seq<Option<Seq<char>>>, Error>
    decreases tris.len(),
{
    if tris.len() == 0 {
        Result::Ok(Seq::empty())
    } else {
        match convert_opt_paint_spec(tris[0].mmu_orca, table) {
            Result::Ok(p) => match convert_mesh_spec(tris.skip(1), table) {
                Result::Ok(rest) => Result::Ok(seq![p] + rest),
                Result::Err(e) => Result::Err(e),
            },
            Result::Err(e) => Result::Err(e),
        }
    }
}

/// Remaps the hierarchical-dialect paint of every triangle of the
/// mesh through the table. On failure the mesh is left untouched; on
/// success each triangle's paint is replaced by its conversion and
/// everything else is kept.
pub fn convert_mesh_color(mesh: &mut Mesh, conversions: Vec<Option<usize>>) -> (r: Result<
    (),
    Error,
>)
    requires
        table_in_range(conversions@),
    ensures
        (match convert_mesh_spec(old(mesh).tris(), conversions@) {
            Result::Ok(ps) => {
                &&& r is Ok
                &&& final(mesh).vertices == old(mesh).vertices
                &&& final(mesh).tris().len() == old(mesh).tris().len()
                &&& forall|i: int|
                    0 <= i < old(mesh).tris().len() ==> {
                        let t = #[trigger] final(mesh).tris()[i];
                        let s = old(mesh).tris()[i];
                        &&& t.v1 == s.v1
                        &&& t.v2 == s.v2
                        &&& t.v3 == s.v3
                        &&& t.mmu_ps == s.mmu_ps
                        &&& (match ps[i] {
                            Option::Some(q) => t.mmu_orca matches Some(o) && o@ == q,
                            Option::None => t.mmu_orca is None,
                        })
                    }
            },
            Result::Err(e) => r matches Err(e2) && e2 == e && *final(mesh) == *old(mesh),
        }),
{
    let n = mesh.triangles.triangle.len();
    let mut converted: Vec<Option<String>> = Vec::new();
    let mut i: usize = 0;
    proof {
        assert(mesh.tris().skip(0) =~= mesh.tris());
        if convert_mesh_spec(mesh.tris(), conversions@) is Ok {
            assert(Seq::new(0, |k: int| opt_string_view(converted@[k])) + convert_mesh_spec(
                mesh.tris(),
                conversions@,
            )->Ok_0 =~= convert_mesh_spec(mesh.tris(), conversions@)->Ok_0);
        }
    }
    while i < n
        invariant
            n == mesh.tris().len(),
            i <= n,
            mesh == old(mesh),
            table_in_range(conversions@),
            converted@.len() == i,
            convert_mesh_spec(mesh.tris(), conversions@) == (match convert_mesh_spec(
                mesh.tris().skip(i as int),
                conversions@,
            ) {
                Result::Ok(rest) => Result::<Seq<Option<Seq<char>>>, Error>::Ok(
                    Seq::new(i as nat, |k: int| opt_string_view(converted@[k])) + rest,
                ),
                Result::Err(e) => Result::<Seq<Option<Seq<char>>>, Error>::Err(e),
            }),
        decreases n - i,
    {
        let ghost tail = mesh.tris().skip(i as int);
        proof {
            assert(tail[0] == mesh.tris()[i as int]);
        }
        let tri_paint = clone_opt_triangle_orca(&mesh.triangles.triangle[i]);
        let step: Option<String>;
        match tri_paint {
            Option::Some(s) => {
                match convert_triangle_color(s.as_str(), &conversions) {
                    Result::Ok(t) => {
                        step = Option::Some(t);
                    },
                    Result::Err(e) => {
                        proof {
                            assert(convert_opt_paint_spec(mesh.tris()[i as int].mmu_orca, conversions@)
                                == Result::<Option<Seq<char>>, Error>::Err(e));
                        }
                        return Result::Err(e);
                    },
                }
            },
            Option::None => {
                step = Option::None;
            },
        }
        let ghost old_conv = converted@;
        converted.push(step);
        proof {
            assert(tail.skip(1) =~= mesh.tris().skip(i + 1));
            assert(forall|k: int| 0 <= k < i ==> converted@[k] == old_conv[k]);
            if convert_mesh_spec(mesh.tris().skip(i + 1), conversions@) is Ok {
                let rest = convert_mesh_spec(mesh.tris().skip(i + 1), conversions@)->Ok_0;
                let p = convert_opt_paint_spec(mesh.tris()[i as int].mmu_orca, conversions@)->Ok_0;
                assert(opt_string_view(converted@[i as int]) == p);
                assert(convert_mesh_spec(tail, conversions@) == Result::<
                    Seq<Option<Seq<char>>>,
                    Error,
                >::Ok(seq![p] + rest));
                assert(Seq::new((i + 1) as nat, |k: int| opt_string_view(converted@[k])) + rest
                    =~= (Seq::new(i as nat, |k: int| opt_string_view(old_conv[k])) + (seq![p]
                    + rest)));
            }
        }
        i = i + 1;
    }
    proof {
        assert(mesh.tris().skip(n as int) =~= Seq::<crate::mesh::Triangle>::empty());
        let ps = Seq::new(n as nat, |k: int| opt_string_view(converted@[k]));
        assert(ps + Seq::<Option<Seq<char>>>::empty() =~= ps);
        assert(convert_mesh_spec(mesh.tris(), conversions@) == Result::<
            Seq<Option<Seq<char>>>,
            Error,
        >::Ok(ps));
    }
    // All strings converted; now apply them.
    let ghost conv0 = converted@;
    let ghost ps0 = Seq::new(n as nat, |k: int| opt_string_view(conv0[k]));
    let mut i: usize = 0;
    while i < n
        invariant
            n == mesh.tris().len(),
            n == old(mesh).tris().len(),
            i <= n,
            converted@.len() == n,
            forall|k: int| i <= k < n ==> #[trigger] converted@[k] == conv0[k],
            mesh.vertices == old(mesh).vertices,
            forall|k: int| i <= k < n ==> #[trigger] mesh.tris()[k] == old(mesh).tris()[k],
            forall|k: int|
                0 <= k < i ==> {
                    let t = #[trigger] mesh.tris()[k];
                    let s = old(mesh).tris()[k];
                    &&& t.v1 == s.v1
                    &&& t.v2 == s.v2
                    &&& t.v3 == s.v3
                    &&& t.mmu_ps == s.mmu_ps
                    &&& t.mmu_orca == conv0[k]
                },
        decreases n - i,
    {
        let taken = converted[i].take();
        proof {
            assert(taken == conv0[i as int]);
        }
        mesh.triangles.triangle[i].mmu_orca = taken;
        i = i + 1;
    }
    proof {
        assert forall|k: int| 0 <= k < n implies (match #[trigger] ps0[k] {
            Option::Some(q) => mesh.tris()[k].mmu_orca matches Some(o) && o@ == q,
            Option::None => mesh.tris()[k].mmu_orca is None,
        }) by {
            assert(mesh.tris()[k].mmu_orca == conv0[k]);
            assert(ps0[k] == opt_string_view(conv0[k]));
        }
    }
    Result::Ok(())
}

/// The view of an optional string.
pub open spec fn opt_string_view(p: Option<String>) -> Option<Seq<char>> {
    match p {
        Option::Some(s) => Option::Some(s@),
        Option::None => Option::None,
    }
}

/// Copies one triangle's hierarchical-dialect paint attribute.
fn clone_opt_triangle_orca(t: &crate::mesh::Triangle) -> (r: Option<String>)
    ensures
        r == t.mmu_orca,
{
    crate::mesh::clone_opt_string(&t.mmu_orca)
}

/// No component of the root document references a path outside the
/// resolution cache, and every component carries a path.
pub open spec fn model_refs_ok(m: OrcaModel) -> bool {
    forall|i: int|
        0 <= i < m.model.resources.object@.len() ==> ((
        #[trigger] m.model.resources.object@[i].object) matches ObjectData::Components {
            component,
        } ==> (forall|j: int|
            0 <= j < component@.len() ==> ((#[trigger] component@[j]).path is Some
                && m.sub_models.contains_path(strip_lead(component@[j].path->0@)))))
}

/// The first conversion error among a sub-document's objects: every
/// object must be a mesh whose painted triangles all convert.
pub open spec fn sub_convert_error(objs: Seq<crate::model::Object>, table: Seq<Option<usize>>)
    -> Option<Error>
    decreases objs.len(),
{
    if objs.len() == 0 {
        Option::None
    } else {
        match objs[0].object {
            ObjectData::Mesh(m) => match convert_mesh_spec(m.tris(), table) {
                Result::Err(e) => Option::Some(e),
                Result::Ok(_) => sub_convert_error(objs.skip(1), table),
            },
            ObjectData::Components { .. } => Option::Some(Error::UnsupportedNesting),
        }
    }
}

/// The first conversion error among the cache's sub-documents.
pub open spec fn cache_convert_error(
    models: Seq<crate::model_orca::SubModel>,
    table: Seq<Option<usize>>,
) -> Option<Error>
    decreases models.len(),
{
    if models.len() == 0 {
        Option::None
    } else {
        match sub_convert_error(models[0].model.resources.object@, table) {
            Option::Some(e) => Option::Some(e),
            Option::None => cache_convert_error(models.skip(1), table),
        }
    }
}

/// The remapped paint strings applied to a mesh's triangles.
pub open spec fn mesh_paints_applied(
    t0: Seq<crate::mesh::Triangle>,
    t1: Seq<crate::mesh::Triangle>,
    ps: Seq<Option<Seq<char>>>,
) -> bool {
    &&& t1.len() == t0.len()
    &&& forall|i: int|
        0 <= i < t0.len() ==> {
            let a = #[trigger] t1[i];
            let b = t0[i];
            &&& a.v1 == b.v1
            &&& a.v2 == b.v2
            &&& a.v3 == b.v3
            &&& a.mmu_ps == b.mmu_ps
            &&& (match ps[i] {
                Option::Some(q) => a.mmu_orca is Some && a.mmu_orca->0@ == q,
                Option::None => a.mmu_orca is None,
            })
        }
}

/// One sub-document with every mesh's paint remapped.
pub open spec fn sub_converted(
    s0: crate::model_orca::SubModel,
    s1: crate::model_orca::SubModel,
    table: Seq<Option<usize>>,
) -> bool {
    let o0 = s0.model.resources.object@;
    let o1 = s1.model.resources.object@;
    &&& s1.id == s0.id
    &&& s1.model.xmlns == s0.model.xmlns
    &&& s1.model.bambustudio == s0.model.bambustudio
    &&& s1.model.p == s0.model.p
    &&& s1.model.requiredextensions == s0.model.requiredextensions
    &&& s1.model.metadata == s0.model.metadata
    &&& s1.model.build == s0.model.build
    &&& s1.model.unit == s0.model.unit
    &&& o1.len() == o0.len()
    &&& forall|oi: int|
        0 <= oi < o0.len() ==> {
            let b0 = o0[oi];
            let b1 = #[trigger] o1[oi];
            &&& b1.id == b0.id
            &&& b1.partnumber == b0.partnumber
            &&& b1.name == b0.name
            &&& b1.uuid == b0.uuid
            &&& b1.pid == b0.pid
            &&& b1.ty == b0.ty
            &&& b0.object matches ObjectData::Mesh(..)
            &&& b1.object matches ObjectData::Mesh(..)
            &&& b1.object->Mesh_0.vertices == b0.object->Mesh_0.vertices
            &&& convert_mesh_spec(b0.object->Mesh_0.tris(), table) is Ok
            &&& mesh_paints_applied(
                b0.object->Mesh_0.tris(),
                b1.object->Mesh_0.tris(),
                convert_mesh_spec(b0.object->Mesh_0.tris(), table)->Ok_0,
            )
        }
}

/// One metadata entry with its extruder index remapped: an entry that
/// is not an extruder property, or whose value does not parse, or
/// whose index the table does not map, is kept as it is.
pub open spec fn extruder_rewritten(
    e0: crate::metadata::orca_metadata::Metadata,
    e1: crate::metadata::orca_metadata::Metadata,
    table: Seq<Option<usize>>,
) -> bool {
    if e0.key is Some && e0.key->0@ == "extruder"@ && e0.value is Some && e0.value->0@.len() > 0
        && crate::utils::all_dec_digits(e0.value->0@) && crate::utils::dec_value(e0.value->0@)
        <= usize::MAX && 0 <= crate::utils::dec_value(e0.value->0@) < table.len() && table[
        crate::utils::dec_value(e0.value->0@)] is Some {
        &&& e1.key == e0.key
        &&& e1.value is Some
        &&& e1.value->0@ == crate::utils::dec_chars(
            table[crate::utils::dec_value(e0.value->0@)]->0 as int,
        )
    } else {
        e1 == e0
    }
}

/// The side metadata with every object's extruder property remapped.
pub open spec fn md_rewritten(
    m0: crate::metadata::orca_metadata::OrcaMetadata,
    m1: crate::metadata::orca_metadata::OrcaMetadata,
    table: Seq<Option<usize>>,
) -> bool {
    &&& m1.assemble@ == m0.assemble@
    &&& m1.object@.len() == m0.object@.len()
    &&& forall|i: int|
        0 <= i < m0.object@.len() ==> {
            let a0 = m0.object@[i];
            let a1 = #[trigger] m1.object@[i];
            &&& a1.id == a0.id
            &&& a1.part == a0.part
            &&& a1.metadata@.len() == a0.metadata@.len()
            &&& forall|j: int|
                0 <= j < a0.metadata@.len() ==> extruder_rewritten(
                    a0.metadata@[j],
                    #[trigger] a1.metadata@[j],
                    table,
                )
        }
}

/// The whole model after remapping: the root document and everything
/// the conversion does not touch are kept; every cached sub-document
/// is converted once; the side metadata's extruder indices follow.
pub open spec fn model_converted(m0: OrcaModel, m2: OrcaModel, table: Seq<Option<usize>>) -> bool {
    &&& m2.model == m0.model
    &&& m2.slice_cfg == m0.slice_cfg
    &&& m2.rels == m0.rels
    &&& m2.sub_model_ids == m0.sub_model_ids
    &&& m2.empty_models == m0.empty_models
    &&& m2.sub_objects == m0.sub_objects
    &&& m2.painted == m0.painted
    &&& m2.sub_models.paths@ == m0.sub_models.paths@
    &&& m2.sub_models.loads == m0.sub_models.loads
    &&& m2.sub_models.models@.len() == m0.sub_models.models@.len()
    &&& forall|k: int|
        0 <= k < m0.sub_models.models@.len() ==> sub_converted(
            m0.sub_models.models@[k],
            #[trigger] m2.sub_models.models@[k],
            table,
        )
    &&& md_rewritten(m0.md, m2.md, table)
}

/// Copies a remap table.
fn clone_table(v: &Vec<Option<usize>>) -> (r: Vec<Option<usize>>)
    ensures
        r@ == v@,
{
    let mut r: Vec<Option<usize>> = Vec::new();
    let mut i: usize = 0;
    while i < v.len()
        invariant
            i <= v@.len(),
            r@ =~= v@.subrange(0, i as int),
        decreases v@.len() - i,
    {
        r.push(v[i]);
        i = i + 1;
    }
    proof {
        assert(r@ =~= v@);
    }
    r
}

/// Remaps the paint of a whole hierarchical-dialect model: every
/// component's path must be cached, every cached sub-document's
/// meshes have their paint strings remapped through the table, and
/// the side metadata's extruder properties are remapped with them.
#[allow(unused_variables)]
pub fn convert_model_color(
    model: OrcaModel,
    conversions: Vec<Option<usize>>,
    models: &std::collections::HashMap<u32, bool>,
) -> (r: Result<OrcaModel, Error>)
    requires
        table_in_range(conversions@),
    ensures
        (if !model_refs_ok(model) {
            r == Result::<OrcaModel, Error>::Err(Error::DanglingReference)
        } else {
            match cache_convert_error(model.sub_models.models@, conversions@) {
                Option::Some(e) => r matches Err(e2) && e2 == e,
                Option::None => r matches Ok(m2) && model_converted(model, m2, conversions@),
            }
        }),
{
    let mut m = model;
    // Every component must name a cached sub-document.
    let n_obj = m.model.resources.object.len();
    let mut i: usize = 0;
    while i < n_obj
        invariant
            m == model,
            n_obj == m.model.resources.object@.len(),
            i <= n_obj,
            forall|x: int|
                0 <= x < i ==> ((#[trigger] m.model.resources.object@[x].object) matches
                    ObjectData::Components { component } ==> (forall|j: int|
                    0 <= j < component@.len() ==> ((#[trigger] component@[j]).path is Some
                        && m.sub_models.contains_path(strip_lead(component@[j].path->0@))))),
        decreases n_obj - i,
    {
        match &m.model.resources.object[i].object {
            ObjectData::Components { component } => {
                let nc = component.len();
                let mut j: usize = 0;
                while j < nc
                    invariant
                        m == model,
                        i < m.model.resources.object@.len(),
                        m.model.resources.object@[i as int].object matches
                            ObjectData::Components { .. },
                        component@ == m.model.resources.object@[
                            i as int
                        ].object->Components_component@,
                        nc == component@.len(),
                        j <= nc,
                        forall|x: int|
                            0 <= x < j ==> ((#[trigger] component@[x]).path is Some
                                && m.sub_models.contains_path(strip_lead(component@[x].path->0@))),
                    decreases nc - j,
                {
                    match &component[j].path {
                        Option::Some(p) => {
                            let sp = crate::utils::strip_lead_sep(p.as_str());
                            if m.sub_models.find(sp).is_none() {
                                proof {
                                    assert(!model_refs_ok(model));
                                }
                                return Result::Err(Error::DanglingReference);
                            }
                        },
                        Option::None => {
                            proof {
                                assert(!model_refs_ok(model));
                            }
                            return Result::Err(Error::DanglingReference);
                        },
                    }
                    j = j + 1;
                }
            },
            ObjectData::Mesh(..) => {},
        }
        i = i + 1;
    }
    proof {
        assert(model_refs_ok(model));
    }
    // Remap the paint of every cached sub-document.
    let ghost models0 = m.sub_models.models@;
    let nk = m.sub_models.models.len();
    let mut k: usize = 0;
    proof {
        assert(models0.skip(0) =~= models0);
    }
    while k < nk
        invariant
            model_refs_ok(model),
            table_in_range(conversions@),
            nk == models0.len(),
            k <= nk,
            m.model == model.model,
            m.slice_cfg == model.slice_cfg,
            m.md == model.md,
            m.rels == model.rels,
            m.sub_model_ids == model.sub_model_ids,
            m.empty_models == model.empty_models,
            m.sub_objects == model.sub_objects,
            m.painted == model.painted,
            m.sub_models.paths@ == model.sub_models.paths@,
            m.sub_models.loads == model.sub_models.loads,
            m.sub_models.models@.len() == models0.len(),
            models0 == model.sub_models.models@,
            cache_convert_error(models0, conversions@) == cache_convert_error(
                models0.skip(k as int),
                conversions@,
            ),
            forall|x: int|
                k <= x < nk ==> #[trigger] m.sub_models.models@[x] == models0[x],
            forall|x: int|
                0 <= x < k ==> sub_converted(
                    models0[x],
                    #[trigger] m.sub_models.models@[x],
                    conversions@,
                ),
        decreases nk - k,
    {
        let ghost ctail = models0.skip(k as int);
        proof {
            assert(ctail[0] == models0[k as int]);
            assert(ctail.skip(1) =~= models0.skip(k + 1));
        }
        let ghost objs0 = models0[k as int].model.resources.object@;
        let no = m.sub_models.models[k].model.resources.object.len();
        let mut oi: usize = 0;
        proof {
            assert(objs0.skip(0) =~= objs0);
        }
        while oi < no
            invariant
                model_refs_ok(model),
                models0 == model.sub_models.models@,
                table_in_range(conversions@),
                k < m.sub_models.models@.len(),
                k < models0.len(),
                no == objs0.len(),
                objs0 == models0[k as int].model.resources.object@,
                oi <= no,
                cache_convert_error(models0, conversions@) == cache_convert_error(
                    models0.skip(k as int),
                    conversions@,
                ),
                models0.skip(k as int)[0] == models0[k as int],
                models0.skip(k as int).skip(1) == models0.skip(k + 1),
                sub_convert_error(objs0, conversions@) == sub_convert_error(
                    objs0.skip(oi as int),
                    conversions@,
                ),
                m.sub_models.models@[k as int].id == models0[k as int].id,
                m.sub_models.models@[k as int].model.xmlns == models0[k as int].model.xmlns,
                m.sub_models.models@[k as int].model.bambustudio == models0[
                    k as int
                ].model.bambustudio,
                m.sub_models.models@[k as int].model.p == models0[k as int].model.p,
                m.sub_models.models@[k as int].model.requiredextensions == models0[
                    k as int
                ].model.requiredextensions,
                m.sub_models.models@[k as int].model.metadata == models0[
                    k as int
                ].model.metadata,
                m.sub_models.models@[k as int].model.build == models0[k as int].model.build,
                m.sub_models.models@[k as int].model.unit == models0[k as int].model.unit,
                m.sub_models.models@[k as int].model.resources.object@.len() == objs0.len(),
                forall|x: int|
                    oi <= x < no ==> #[trigger] m.sub_models.models@[
                        k as int
                    ].model.resources.object@[x] == objs0[x],
                forall|x: int|
                    0 <= x < oi ==> {
                        let b0 = objs0[x];
                        let b1 = #[trigger] m.sub_models.models@[
                            k as int
                        ].model.resources.object@[x];
                        &&& b1.id == b0.id
                        &&& b1.partnumber == b0.partnumber
                        &&& b1.name == b0.name
                        &&& b1.uuid == b0.uuid
                        &&& b1.pid == b0.pid
                        &&& b1.ty == b0.ty
                        &&& b0.object matches ObjectData::Mesh(..)
                        &&& b1.object matches ObjectData::Mesh(..)
                        &&& b1.object->Mesh_0.vertices == b0.object->Mesh_0.vertices
                        &&& convert_mesh_spec(b0.object->Mesh_0.tris(), conversions@) is Ok
                        &&& mesh_paints_applied(
                            b0.object->Mesh_0.tris(),
                            b1.object->Mesh_0.tris(),
                            convert_mesh_spec(b0.object->Mesh_0.tris(), conversions@)->Ok_0,
                        )
                    },
                m.model == model.model,
                m.slice_cfg == model.slice_cfg,
                m.md == model.md,
                m.rels == model.rels,
                m.sub_model_ids == model.sub_model_ids,
                m.empty_models == model.empty_models,
                m.sub_objects == model.sub_objects,
                m.painted == model.painted,
                m.sub_models.paths@ == model.sub_models.paths@,
                m.sub_models.loads == model.sub_models.loads,
                m.sub_models.models@.len() == models0.len(),
                forall|x: int|
                    k < x < nk ==> #[trigger] m.sub_models.models@[x] == models0[x],
                forall|x: int|
                    0 <= x < k ==> sub_converted(
                        models0[x],
                        #[trigger] m.sub_models.models@[x],
                        conversions@,
                    ),
                nk == models0.len(),
            decreases no - oi,
        {
            let ghost otail = objs0.skip(oi as int);
            proof {
                assert(otail[0] == objs0[oi as int]);
                assert(otail.skip(1) =~= objs0.skip(oi + 1));
            }
            let table = clone_table(&conversions);
            match &mut m.sub_models.models[k].model.resources.object[oi].object {
                ObjectData::Mesh(mesh) => {
                    match convert_mesh_color(mesh, table) {
                        Result::Ok(()) => {},
                        Result::Err(e) => {
                            proof {
                                assert(sub_convert_error(objs0, conversions@) == Option::Some(
                                    e,
                                ));
                                assert(cache_convert_error(models0, conversions@)
                                    == Option::Some(e));
                            }
                            return Result::Err(e);
                        },
                    }
                },
                ObjectData::Components { .. } => {
                    proof {
                        assert(sub_convert_error(objs0, conversions@) == Option::Some(
                            Error::UnsupportedNesting,
                        ));
                        assert(cache_convert_error(models0, conversions@) == Option::Some(
                            Error::UnsupportedNesting,
                        ));
                    }
                    return Result::Err(Error::UnsupportedNesting);
                },
            }
            oi = oi + 1;
        }
        proof {
            assert(objs0.skip(no as int) =~= Seq::<crate::model::Object>::empty());
            assert(sub_convert_error(objs0, conversions@) is None);
        }
        k = k + 1;
    }
    proof {
        assert(models0.skip(nk as int) =~= Seq::<crate::model_orca::SubModel>::empty());
        assert(cache_convert_error(models0, conversions@) is None);
    }
    // Remap the extruder properties of the side metadata.
    let ghost md0 = m.md;
    let nm = m.md.object.len();
    let mut i: usize = 0;
    while i < nm
        invariant
            table_in_range(conversions@),
            nm == md0.object@.len(),
            i <= nm,
            m.md.object@.len() == md0.object@.len(),
            m.md.assemble@ == md0.assemble@,
            forall|x: int| i <= x < nm ==> #[trigger] m.md.object@[x] == md0.object@[x],
            forall|x: int|
                0 <= x < i ==> {
                    let a0 = md0.object@[x];
                    let a1 = #[trigger] m.md.object@[x];
                    &&& a1.id == a0.id
                    &&& a1.part == a0.part
                    &&& a1.metadata@.len() == a0.metadata@.len()
                    &&& forall|j: int|
                        0 <= j < a0.metadata@.len() ==> extruder_rewritten(
                            a0.metadata@[j],
                            #[trigger] a1.metadata@[j],
                            conversions@,
                        )
                },
            m.model == model.model,
            m.slice_cfg == model.slice_cfg,
            m.rels == model.rels,
            m.sub_model_ids == model.sub_model_ids,
            m.empty_models == model.empty_models,
            m.sub_objects == model.sub_objects,
            m.painted == model.painted,
            m.sub_models.paths@ == model.sub_models.paths@,
            m.sub_models.loads == model.sub_models.loads,
            m.sub_models.models@.len() == model.sub_models.models@.len(),
            forall|x: int|
                0 <= x < model.sub_models.models@.len() ==> sub_converted(
                    model.sub_models.models@[x],
                    #[trigger] m.sub_models.models@[x],
                    conversions@,
                ),
        decreases nm - i,
    {
        let ghost entry0 = md0.object@[i as int];
        let ne = m.md.object[i].metadata.len();
        let mut j: usize = 0;
        while j < ne
            invariant
                table_in_range(conversions@),
                i < m.md.object@.len(),
                i < md0.object@.len(),
                ne == entry0.metadata@.len(),
                entry0 == md0.object@[i as int],
                j <= ne,
                m.md.object@.len() == md0.object@.len(),
                m.md.assemble@ == md0.assemble@,
                m.md.object@[i as int].id == entry0.id,
                m.md.object@[i as int].part == entry0.part,
                m.md.object@[i as int].metadata@.len() == entry0.metadata@.len(),
                forall|x: int|
                    j <= x < ne ==> #[trigger] m.md.object@[i as int].metadata@[x]
                        == entry0.metadata@[x],
                forall|x: int|
                    0 <= x < j ==> extruder_rewritten(
                        entry0.metadata@[x],
                        #[trigger] m.md.object@[i as int].metadata@[x],
                        conversions@,
                    ),
                forall|x: int| i < x < nm ==> #[trigger] m.md.object@[x] == md0.object@[x],
                forall|x: int|
                    0 <= x < i ==> {
                        let a0 = md0.object@[x];
                        let a1 = #[trigger] m.md.object@[x];
                        &&& a1.id == a0.id
                        &&& a1.part == a0.part
                        &&& a1.metadata@.len() == a0.metadata@.len()
                        &&& forall|y: int|
                            0 <= y < a0.metadata@.len() ==> extruder_rewritten(
                                a0.metadata@[y],
                                #[trigger] a1.metadata@[y],
                                conversions@,
                            )
                    },
                nm == md0.object@.len(),
                m.model == model.model,
                m.slice_cfg == model.slice_cfg,
                m.rels == model.rels,
                m.sub_model_ids == model.sub_model_ids,
                m.empty_models == model.empty_models,
                m.sub_objects == model.sub_objects,
                m.painted == model.painted,
                m.sub_models.paths@ == model.sub_models.paths@,
                m.sub_models.loads == model.sub_models.loads,
                m.sub_models.models@.len() == model.sub_models.models@.len(),
                forall|x: int|
                    0 <= x < model.sub_models.models@.len() ==> sub_converted(
                        model.sub_models.models@[x],
                        #[trigger] m.sub_models.models@[x],
                        conversions@,
                    ),
            decreases ne - j,
        {
            let is_extruder = crate::utils::opt_str_is(&m.md.object[i].metadata[j].key, "extruder");
            if is_extruder {
                let parsed: Option<usize>;
                match &m.md.object[i].metadata[j].value {
                    Option::Some(v) => {
                        parsed = crate::utils::parse_decimal(v.as_str());
                    },
                    Option::None => {
                        parsed = Option::None;
                    },
                }
                match parsed {
                    Option::Some(x) => {
                        if x < conversions.len() {
                            match conversions[x] {
                                Option::Some(t) => {
                                    let nv = crate::utils::usize_to_string(t);
                                    m.md.object[i].metadata[j].value = Option::Some(nv);
                                },
                                Option::None => {},
                            }
                        }
                    },
                    Option::None => {},
                }
            }
            proof {
                assert(extruder_rewritten(
                    entry0.metadata@[j as int],
                    m.md.object@[i as int].metadata@[j as int],
                    conversions@,
                ));
            }
            j = j + 1;
        }
        i = i + 1;
    }
    Result::Ok(m)
}

/// A lowercase or uppercase hexadecimal digit.
pub open spec fn is_hex_any(c: char) -> bool {
    (48 <= c as int <= 57) || (65 <= c as int <= 70) || (97 <= c as int <= 102)
}

/// The value of a hexadecimal digit of either case.
pub open spec fn hex_any_val(c: char) -> int {
    if c as int <= 57 {
        c as int - 48
    } else if c as int <= 70 {
        c as int - 55
    } else {
        c as int - 87
    }
}

/// Reads a `#rrggbb` color into its three channels; anything else is
/// rejected.
pub fn parse_hex_color(s: &str) -> (r: Option<(u8, u8, u8)>)
    ensures
        (if s@.len() == 7 && s@[0] == '#' && (forall|i: int|
            1 <= i < 7 ==> is_hex_any(#[trigger] s@[i])) {
            r matches Some(c) && c.0 == hex_any_val(s@[1]) * 16 + hex_any_val(s@[2]) && c.1
                == hex_any_val(s@[3]) * 16 + hex_any_val(s@[4]) && c.2 == hex_any_val(s@[5]) * 16
                + hex_any_val(s@[6])
        } else {
            r is None
        }),
{
    if s.unicode_len() != 7 {
        return Option::None;
    }
    if s.get_char(0) != '#' {
        return Option::None;
    }
    let mut vals: [u8; 6] = [0, 0, 0, 0, 0, 0];
    let mut i: usize = 0;
    while i < 6
        invariant
            s@.len() == 7,
            i <= 6,
            forall|k: int| 0 <= k < i ==> is_hex_any(#[trigger] s@[k + 1]),
            forall|k: int| 0 <= k < i ==> #[trigger] vals@[k] == hex_any_val(s@[k + 1]),
        decreases 6 - i,
    {
        let c = s.get_char(i + 1);
        let v: u8;
        if '0' <= c && c <= '9' {
            v = (c as u32 - 48) as u8;
        } else if 'A' <= c && c <= 'F' {
            v = (c as u32 - 55) as u8;
        } else if 'a' <= c && c <= 'f' {
            v = (c as u32 - 87) as u8;
        } else {
            proof {
                assert(!is_hex_any(s@[i + 1]));
            }
            return Option::None;
        }
        vals[i] = v;
        i = i + 1;
    }
    Option::Some(
        (vals[0] * 16 + vals[1], vals[2] * 16 + vals[3], vals[4] * 16 + vals[5]),
    )
}

} // verus!
