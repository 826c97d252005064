//! How numbers and fields lie in the buffer of a quadrature-function context.

use vstd::prelude::*;

#[allow(unused_imports)]
use vstd::arithmetic::power::pow;

#[allow(unused_imports)]
use crate::qfunction_context::{
    context_valid, field_fault, field_fault_from, find_field, i32_of, law_word_round_trip,
    law_write_leaves_other_words, layout_end, layout_fault, lemma_sound_from, lemma_word_ext,
    lookup, repeats, share, with_word, word_at, word_bound, word_of_i32, ContextView, FieldView,
};

verus! {

// ── words ───────────────────────────────────────────────────────────────────

/// Byte `k` of a word counts `256` to the power `k`: changing it changes the word by that much
/// for each unit.
pub proof fn law_words_are_little_endian(bytes: Seq<u8>, offset: int, n: nat, k: nat, b: u8)
    requires
        0 <= offset,
        k < n,
        offset + n <= bytes.len(),
    ensures
        word_at(bytes.update(offset + k, b), offset, n) - word_at(bytes, offset, n) == (b
            - bytes[offset + k]) * pow(256, k),
    decreases k,
{
    reveal(pow);
    let after = bytes.update(offset + k, b);
    if k == 0 {
        lemma_word_ext(after, bytes, offset + 1, (n - 1) as nat);
        assert(pow(256, 0) == 1);
    } else {
        law_words_are_little_endian(bytes, offset + 1, (n - 1) as nat, (k - 1) as nat, b);
        assert((offset + 1) + (k - 1) as nat == offset + k);
        let d = b - bytes[offset + k];
        let p = pow(256, (k - 1) as nat);
        assert(pow(256, k) == 256 * p);
        assert(256 * (d * p) == d * (256 * p)) by (nonlinear_arith);
    }
}

/// The word of an integer and the integer of a word differ by a multiple of `2` to the power `32`,
/// and each lies in its range.
pub proof fn law_integers_are_twos_complement(v: i32, w: nat)
    requires
        w <= u32::MAX,
    ensures
        (word_of_i32(v) - v) % 0x1_0000_0000 == 0,
        word_of_i32(v) <= u32::MAX,
        (w - i32_of(w)) % 0x1_0000_0000 == 0,
        i32::MIN <= i32_of(w) <= i32::MAX,
{
}

// ── fields ──────────────────────────────────────────────────────────────────

/// Byte `k` of the buffer belongs to the field.
pub open spec fn holds_byte(f: FieldView, k: int) -> bool {
    f.offset <= k < f.offset + f.kind.size()
}

proof fn lemma_no_fault_from(fields: Seq<FieldView>, byte_len: int, i: int)
    requires
        0 <= i,
        forall|k: int|
            i <= k < fields.len() ==> #[trigger] field_fault(fields, byte_len, k) is None,
    ensures
        field_fault_from(fields, byte_len, i) is None,
    decreases fields.len() - i,
{
    if i < fields.len() {
        assert(field_fault(fields, byte_len, i) is None);
        lemma_no_fault_from(fields, byte_len, i + 1);
    }
}

/// A layout is accepted exactly where it has a field, no two fields have the same name, every
/// field lies in the buffer, and no byte belongs to two fields.
pub proof fn law_layout_is_accepted(fields: Seq<FieldView>, byte_len: int)
    requires
        byte_len <= usize::MAX,
    ensures
        layout_fault(fields, byte_len) is None <==> {
            &&& fields.len() > 0
            &&& forall|i: int, j: int|
                0 <= i < j < fields.len() ==> (#[trigger] fields[i]).name != (
                #[trigger] fields[j]).name
            &&& forall|i: int|
                0 <= i < fields.len() ==> (#[trigger] fields[i]).offset + fields[i].kind.size()
                    <= byte_len
            &&& forall|i: int, j: int, k: int|
                0 <= i < j < fields.len() ==> !(#[trigger] holds_byte(fields[i], k)
                    && #[trigger] holds_byte(fields[j], k))
        },
{
    if layout_fault(fields, byte_len) is None {
        assert forall|i: int, j: int| 0 <= i < j < fields.len() implies (#[trigger] fields[i]).name
            != (#[trigger] fields[j]).name by {
            lemma_sound_from(fields, byte_len, 0, j);
        }
        assert forall|i: int| 0 <= i < fields.len() implies (#[trigger] fields[i]).offset
            + fields[i].kind.size() <= byte_len by {
            lemma_sound_from(fields, byte_len, 0, i);
        }
        assert forall|i: int, j: int, k: int| 0 <= i < j < fields.len() implies !(
        #[trigger] holds_byte(fields[i], k) && #[trigger] holds_byte(fields[j], k)) by {
            assert(!share(fields[i], fields[j]));
        }
    } else if fields.len() > 0 && (forall|i: int, j: int|
        0 <= i < j < fields.len() ==> (#[trigger] fields[i]).name != (#[trigger] fields[j]).name)
        && (forall|i: int|
        0 <= i < fields.len() ==> (#[trigger] fields[i]).offset + fields[i].kind.size()
            <= byte_len) {
        assert forall|k: int| 0 <= k < fields.len() implies #[trigger] field_fault(
            fields,
            byte_len,
            k,
        ) is None by {
            assert(fields[k].offset + fields[k].kind.size() <= byte_len);
            assert(!repeats(fields, k));
        }
        lemma_no_fault_from(fields, byte_len, 0);
        let (i, j) = choose|i: int, j: int|
            0 <= i < j < fields.len() && #[trigger] share(fields[i], fields[j]);
        let k = if fields[i].offset < fields[j].offset {
            fields[j].offset as int
        } else {
            fields[i].offset as int
        };
        assert(holds_byte(fields[i], k) && holds_byte(fields[j], k));
    }
}

proof fn lemma_finds(fields: Seq<FieldView>, at: int, i: int)
    requires
        0 <= i <= at < fields.len(),
        forall|j: int| 0 <= j < at ==> (#[trigger] fields[j]).name != fields[at].name,
    ensures
        find_field(fields, fields[at].name, i) == Some(at),
    decreases at - i,
{
    if i < at {
        lemma_finds(fields, at, i + 1);
    }
}

/// Every field of a valid context is found under its name and kind.
pub proof fn law_fields_are_found(c: ContextView, fields: Seq<FieldView>, what: Seq<char>, at: int)
    requires
        context_valid(c),
        c.fields == Some(fields),
        c.bytes.len() <= usize::MAX,
        0 <= at < fields.len(),
    ensures
        lookup(c, what, fields[at].name, fields[at].kind) == Ok::<FieldView, Seq<char>>(fields[at]),
{
    law_layout_is_accepted(fields, c.bytes.len() as int);
    lemma_finds(fields, at, 0);
}

/// The fields of a valid context do not disturb each other: a word written to one field is read
/// back from it, and the others keep theirs.
pub proof fn law_fields_are_independent(
    c: ContextView,
    fields: Seq<FieldView>,
    at: int,
    other: int,
    w: nat,
)
    requires
        context_valid(c),
        c.fields == Some(fields),
        c.bytes.len() <= usize::MAX,
        0 <= at < fields.len(),
        0 <= other < fields.len(),
        w < word_bound(fields[at].kind.size() as nat),
    ensures
        ({
            let n = fields[at].kind.size() as nat;
            let m = fields[other].kind.size() as nat;
            let after = with_word(c.bytes, fields[at].offset as int, n, w);
            word_at(after, fields[other].offset as int, m) == if at == other {
                w
            } else {
                word_at(c.bytes, fields[other].offset as int, m)
            }
        }),
{
    let (f, g) = (fields[at], fields[other]);
    law_layout_is_accepted(fields, c.bytes.len() as int);
    if at == other {
        law_word_round_trip(c.bytes, f.offset as int, f.kind.size() as nat, w);
    } else {
        let k = if f.offset < g.offset {
            g.offset as int
        } else {
            f.offset as int
        };
        assert(!(holds_byte(f, k) && holds_byte(g, k)));
        law_write_leaves_other_words(
            c.bytes,
            f.offset as int,
            f.kind.size() as nat,
            w,
            g.offset as int,
            g.kind.size() as nat,
        );
    }
}

/// The fields end where the last of them does: no field goes on after that, and some field ends
/// there unless there is none.
pub proof fn law_layout_ends_with_a_field(fields: Seq<FieldView>)
    ensures
        forall|i: int|
            0 <= i < fields.len() ==> (#[trigger] fields[i]).offset + fields[i].kind.size()
                <= layout_end(fields),
        fields.len() > 0 ==> exists|i: int|
            0 <= i < fields.len() && (#[trigger] fields[i]).offset + fields[i].kind.size()
                == layout_end(fields),
        fields.len() == 0 ==> layout_end(fields) == 0,
    decreases fields.len(),
{
    if fields.len() > 0 {
        let rest = fields.drop_last();
        let n = rest.len() as int;
        law_layout_ends_with_a_field(rest);
        assert forall|i: int| 0 <= i < fields.len() implies (#[trigger] fields[i]).offset
            + fields[i].kind.size() <= layout_end(fields) by {
            if i < n {
                assert(rest[i] == fields[i]);
            }
        }
        if layout_end(rest) < fields.last().end() || n == 0 {
            assert(fields[n].offset + fields[n].kind.size() == layout_end(fields));
        } else {
            let i = choose|i: int|
                0 <= i < rest.len() && (#[trigger] rest[i]).offset + rest[i].kind.size()
                    == layout_end(rest);
            assert(fields[i] == rest[i]);
        }
    }
}

} // verus!
