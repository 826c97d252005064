//! User data handed to quadrature functions: a byte buffer, optionally with named fields.
//!
//! Numbers are stored in little-endian order. Every host write marks the buffer as newer than a
//! copy that a device may hold.

use vstd::prelude::*;

use crate::error::{ErrorKind, ReedError, ReedResult};
#[allow(unused_imports)]
use crate::error::refused;
use crate::text::{quote, Message};
#[allow(unused_imports)]
use crate::text::{decimal, quoted};

verus! {

// ── little-endian words ─────────────────────────────────────────────────────

/// `256` to the power `n`.
pub open spec fn word_bound(n: nat) -> nat
    decreases n,
{
    if n == 0 {
        1
    } else {
        256 * word_bound((n - 1) as nat)
    }
}

/// The word in the `n` bytes from `offset`, least significant byte first.
pub open spec fn word_at(bytes: Seq<u8>, offset: int, n: nat) -> nat
    decreases n,
{
    if n == 0 {
        0
    } else {
        bytes[offset] as nat + 256 * word_at(bytes, offset + 1, (n - 1) as nat)
    }
}

/// Byte `k` of a word.
pub open spec fn word_byte(w: nat, k: int) -> u8
    decreases k,
{
    if k <= 0 {
        (w % 256) as u8
    } else {
        word_byte(w / 256, k - 1)
    }
}

/// The buffer with the word `w` written to the `n` bytes from `offset`.
pub open spec fn with_word(bytes: Seq<u8>, offset: int, n: nat, w: nat) -> Seq<u8> {
    Seq::new(
        bytes.len(),
        |i: int|
            if offset <= i < offset + n {
                word_byte(w, i - offset)
            } else {
                bytes[i]
            },
    )
}

/// The integer that a four-byte word stands for, in two's complement.
pub open spec fn i32_of(w: nat) -> int {
    if w < 0x8000_0000 {
        w as int
    } else {
        w - 0x1_0000_0000
    }
}

/// The four-byte word that stands for an integer, in two's complement.
pub open spec fn word_of_i32(v: i32) -> nat {
    if v >= 0 {
        v as nat
    } else {
        (v + 0x1_0000_0000) as nat
    }
}

/// Words are below their bound.
proof fn lemma_word_bound(bytes: Seq<u8>, offset: int, n: nat)
    ensures
        word_at(bytes, offset, n) < word_bound(n),
    decreases n,
{
    if n > 0 {
        lemma_word_bound(bytes, offset + 1, (n - 1) as nat);
    }
}

/// Values of the bound that occur.
proof fn lemma_bounds()
    ensures
        word_bound(4) == 0x1_0000_0000,
        word_bound(8) == 0x1_0000_0000_0000_0000,
{
    reveal_with_fuel(word_bound, 9);
}

/// The bound grows.
proof fn lemma_bound_grows(m: nat, n: nat)
    requires
        m <= n,
    ensures
        0 < word_bound(m) <= word_bound(n),
    decreases n,
{
    if m < n {
        lemma_bound_grows(m, (n - 1) as nat);
    } else if m > 0 {
        lemma_bound_grows((m - 1) as nat, (n - 1) as nat);
    }
}

/// Bytes that are those of a word read as the word.
proof fn lemma_word_from_bytes(bytes: Seq<u8>, offset: int, n: nat, w: nat)
    requires
        w < word_bound(n),
        forall|k: int| 0 <= k < n ==> bytes[offset + k] == #[trigger] word_byte(w, k),
    ensures
        word_at(bytes, offset, n) == w,
    decreases n,
{
    if n > 0 {
        assert(bytes[offset + 0] == word_byte(w, 0));
        assert forall|k: int| 0 <= k < n - 1 implies bytes[(offset + 1) + k] == #[trigger] word_byte(
            w / 256,
            k,
        ) by {
            assert(bytes[offset + (k + 1)] == word_byte(w, k + 1));
        }
        assert(w / 256 < word_bound((n - 1) as nat));
        lemma_word_from_bytes(bytes, offset + 1, (n - 1) as nat, w / 256);
    }
}

/// Words read from equal bytes are equal.
pub(crate) proof fn lemma_word_ext(a: Seq<u8>, b: Seq<u8>, offset: int, n: nat)
    requires
        forall|k: int| offset <= k < offset + n ==> #[trigger] a[k] == b[k],
    ensures
        word_at(a, offset, n) == word_at(b, offset, n),
    decreases n,
{
    if n > 0 {
        assert(a[offset] == b[offset]);
        lemma_word_ext(a, b, offset + 1, (n - 1) as nat);
    }
}

/// What is read back is what was written.
pub proof fn law_word_round_trip(bytes: Seq<u8>, offset: int, n: nat, w: nat)
    requires
        0 <= offset,
        offset + n <= bytes.len(),
        w < word_bound(n),
    ensures
        word_at(with_word(bytes, offset, n, w), offset, n) == w,
{
    let after = with_word(bytes, offset, n, w);
    assert forall|k: int| 0 <= k < n implies after[offset + k] == #[trigger] word_byte(w, k) by {}
    lemma_word_from_bytes(after, offset, n, w);
}

/// An integer survives a write followed by a read at the same place.
pub proof fn law_i32_round_trip(bytes: Seq<u8>, offset: int, v: i32)
    requires
        0 <= offset,
        offset + 4 <= bytes.len(),
    ensures
        i32_of(word_at(with_word(bytes, offset, 4, word_of_i32(v)), offset, 4)) == v,
{
    lemma_bounds();
    law_word_round_trip(bytes, offset, 4, word_of_i32(v));
}

/// A write leaves every word that it does not overlap.
pub proof fn law_write_leaves_other_words(
    bytes: Seq<u8>,
    offset: int,
    n: nat,
    w: nat,
    other: int,
    m: nat,
)
    requires
        0 <= other,
        other + m <= bytes.len(),
        other + m <= offset || offset + n <= other,
    ensures
        word_at(with_word(bytes, offset, n, w), other, m) == word_at(bytes, other, m),
{
    lemma_word_ext(with_word(bytes, offset, n, w), bytes, other, m);
}

fn read_word(data: &[u8], offset: usize, n: usize) -> (w: u64)
    requires
        n <= 8,
        offset + n <= data@.len(),
    ensures
        w == word_at(data@, offset as int, n as nat),
{
    assert(data@.len() == data.len());
    let mut w: u64 = 0;
    let mut k: usize = n;
    while k > 0
        invariant
            k <= n <= 8,
            offset + n <= data@.len() <= usize::MAX,
            w == word_at(data@, offset + k, (n - k) as nat),
        decreases k,
    {
        proof {
            lemma_word_bound(data@, offset + k, (n - k) as nat);
            lemma_bound_grows((n - k) as nat, 7);
            reveal_with_fuel(word_bound, 9);
        }
        k = k - 1;
        w = w * 256 + data[offset + k] as u64;
    }
    w
}

fn write_word(buf: &mut [u8], offset: usize, n: usize, w: u64)
    requires
        n <= 8,
        offset + n <= old(buf)@.len(),
    ensures
        final(buf)@ == with_word(old(buf)@, offset as int, n as nat, w as nat),
{
    assert(buf@.len() == buf.len());
    let ghost before = buf@;
    let mut rest: u64 = w;
    for k in 0..n
        invariant
            n <= 8,
            buf@.len() == before.len(),
            offset + n <= before.len() <= usize::MAX,
            forall|j: int|
                j >= 0 ==> word_byte(w as nat, j + k) == #[trigger] word_byte(rest as nat, j),
            forall|i: int|
                0 <= i < before.len() ==> #[trigger] buf@[i] == if offset <= i < offset + k {
                    word_byte(w as nat, i - offset)
                } else {
                    before[i]
                },
    {
        proof {
            assert(word_byte(w as nat, 0 + k) == word_byte(rest as nat, 0));
            assert forall|j: int| j >= 0 implies word_byte(w as nat, j + (k + 1))
                == #[trigger] word_byte((rest / 256) as nat, j) by {
                assert(word_byte(w as nat, (j + 1) + k) == word_byte(rest as nat, j + 1));
            }
        }
        buf[offset + k] = (rest % 256) as u8;
        rest = rest / 256;
    }
    assert(buf@ =~= with_word(before, offset as int, n as nat, w as nat));
}

// ── fields ──────────────────────────────────────────────────────────────────

/// Number kinds of context fields.
#[derive(Debug, Clone, Copy, PartialEq, Eq, Hash, Structural)]
pub enum QFunctionContextFieldKind {
    F64,
    F32,
    I32,
}

impl QFunctionContextFieldKind {
    /// Bytes that a field of this kind takes.
    pub open spec fn size(self) -> int {
        match self {
            QFunctionContextFieldKind::F64 => 8,
            QFunctionContextFieldKind::F32 | QFunctionContextFieldKind::I32 => 4,
        }
    }

    /// Name of the kind.
    pub open spec fn name_text(self) -> Seq<char> {
        match self {
            QFunctionContextFieldKind::F64 => "F64"@,
            QFunctionContextFieldKind::F32 => "F32"@,
            QFunctionContextFieldKind::I32 => "I32"@,
        }
    }

    /// Bytes that a field of this kind takes.
    pub fn size_bytes(self) -> (n: usize)
        ensures
            n == self.size(),
    {
        match self {
            QFunctionContextFieldKind::F64 => 8,
            QFunctionContextFieldKind::F32 | QFunctionContextFieldKind::I32 => 4,
        }
    }

    /// Name of the kind.
    pub fn name(self) -> (s: &'static str)
        ensures
            s@ == self.name_text(),
    {
        match self {
            QFunctionContextFieldKind::F64 => "F64",
            QFunctionContextFieldKind::F32 => "F32",
            QFunctionContextFieldKind::I32 => "I32",
        }
    }
}

/// A named field of a context.
#[derive(Debug, PartialEq, Eq)]
pub struct QFunctionContextField {
    pub name: String,
    pub offset: usize,
    pub kind: QFunctionContextFieldKind,
}

/// The mathematical content of a field.
pub struct FieldView {
    pub name: Seq<char>,
    pub offset: nat,
    pub kind: QFunctionContextFieldKind,
}

impl FieldView {
    /// The first byte after the field.
    pub open spec fn end(self) -> int {
        self.offset + self.kind.size()
    }
}

impl View for QFunctionContextField {
    type V = FieldView;

    open spec fn view(&self) -> FieldView {
        FieldView { name: self.name@, offset: self.offset as nat, kind: self.kind }
    }
}

impl Clone for QFunctionContextField {
    fn clone(&self) -> (r: Self)
        ensures
            r@ == self@,
    {
        QFunctionContextField { name: self.name.clone(), offset: self.offset, kind: self.kind }
    }
}

/// The contents of a list of fields.
pub open spec fn field_views(fields: Seq<QFunctionContextField>) -> Seq<FieldView> {
    fields.map_values(|f: QFunctionContextField| f@)
}

/// The name of field `i` occurs before it.
pub open spec fn repeats(fields: Seq<FieldView>, i: int) -> bool {
    exists|j: int| 0 <= j < i && #[trigger] fields[j].name == fields[i].name
}

/// What is wrong with field `i`, if anything.
pub open spec fn field_fault(fields: Seq<FieldView>, byte_len: int, i: int) -> Option<Seq<char>> {
    let f = fields[i];
    if repeats(fields, i) {
        Some("QFunctionContext field layout: duplicate field name "@ + quoted(f.name))
    } else if f.end() > usize::MAX {
        Some("QFunctionContext field "@ + quoted(f.name) + ": offset+size overflow"@)
    } else if f.end() > byte_len {
        Some(
            "QFunctionContext field "@ + quoted(f.name) + ": offset "@ + decimal(f.offset)
                + " + size "@ + decimal(f.kind.size() as nat) + " exceeds buffer length "@
                + decimal(byte_len as nat),
        )
    } else {
        None
    }
}

/// What is wrong with the first bad field at or after `i`, if any.
pub open spec fn field_fault_from(fields: Seq<FieldView>, byte_len: int, i: int) -> Option<Seq<char>>
    decreases fields.len() - i,
{
    if i >= fields.len() {
        None
    } else if field_fault(fields, byte_len, i) is Some {
        field_fault(fields, byte_len, i)
    } else {
        field_fault_from(fields, byte_len, i + 1)
    }
}

/// Two fields share a byte.
pub open spec fn share(a: FieldView, b: FieldView) -> bool {
    a.offset < b.end() && b.offset < a.end()
}

/// Some two fields share a byte.
pub open spec fn overlapping(fields: Seq<FieldView>) -> bool {
    exists|i: int, j: int| 0 <= i < j < fields.len() && #[trigger] share(fields[i], fields[j])
}

/// What is wrong with a layout, if anything.
pub open spec fn layout_fault(fields: Seq<FieldView>, byte_len: int) -> Option<Seq<char>> {
    if fields.len() == 0 {
        Some("QFunctionContext field layout: empty field list"@)
    } else if field_fault_from(fields, byte_len, 0) is Some {
        field_fault_from(fields, byte_len, 0)
    } else if overlapping(fields) {
        Some("QFunctionContext field layout: overlapping field byte ranges"@)
    } else {
        None
    }
}

/// The first byte after all fields.
pub open spec fn layout_end(fields: Seq<FieldView>) -> int
    decreases fields.len(),
{
    if fields.len() == 0 {
        0
    } else {
        let before = layout_end(fields.drop_last());
        if before < fields.last().end() {
            fields.last().end()
        } else {
            before
        }
    }
}

/// A layout without fault is sound.
pub(crate) proof fn lemma_sound_from(fields: Seq<FieldView>, byte_len: int, i: int, k: int)
    requires
        0 <= i <= k < fields.len(),
        field_fault_from(fields, byte_len, i) is None,
    ensures
        field_fault(fields, byte_len, k) is None,
    decreases fields.len() - i,
{
    if i < k {
        lemma_sound_from(fields, byte_len, i + 1, k);
    }
}

/// Checks a layout: no name occurs twice, every field lies in the buffer, no two fields overlap.
fn validate_field_layout(fields: &Vec<QFunctionContextField>, byte_len: usize) -> (r: ReedResult<
    (),
>)
    ensures
        match layout_fault(field_views(fields@), byte_len as int) {
            Some(m) => refused(r, ErrorKind::QFunction, m),
            None => r is Ok,
        },
{
    let ghost views = field_views(fields@);
    if fields.len() == 0 {
        return Err(
            ReedError::QFunction(
                Message::new("QFunctionContext field layout: empty field list").done(),
            ),
        );
    }
    for i in 0..fields.len()
        invariant
            views == field_views(fields@),
            fields@.len() > 0,
            field_fault_from(views, byte_len as int, 0) == field_fault_from(
                views,
                byte_len as int,
                i as int,
            ),
    {
        assert(views[i as int] == fields@[i as int]@);
        for j in 0..i
            invariant
                i < fields@.len(),
                views == field_views(fields@),
                fields@.len() > 0,
                field_fault_from(views, byte_len as int, 0) == field_fault_from(
                    views,
                    byte_len as int,
                    i as int,
                ),
                views[i as int] == fields@[i as int]@,
                forall|k: int| 0 <= k < j ==> #[trigger] views[k].name != views[i as int].name,
        {
            assert(views[j as int] == fields@[j as int]@);
            if fields[j].name == fields[i].name {
                assert(views[j as int].name == views[i as int].name);
                assert(repeats(views, i as int));
                let name = quote(fields[i].name.as_str());
                return Err(
                    ReedError::QFunction(
                        Message::new("QFunctionContext field layout: duplicate field name ").text(
                            name.as_str(),
                        ).done(),
                    ),
                );
            }
        }
        assert(!repeats(views, i as int));
        let size: usize = fields[i].kind.size_bytes();
        match fields[i].offset.checked_add(size) {
            None => {
                let name = quote(fields[i].name.as_str());
                return Err(
                    ReedError::QFunction(
                        Message::new("QFunctionContext field ").text(name.as_str()).text(
                            ": offset+size overflow",
                        ).done(),
                    ),
                );
            },
            Some(end) => {
                if end > byte_len {
                    let name = quote(fields[i].name.as_str());
                    return Err(
                        ReedError::QFunction(
                            Message::new("QFunctionContext field ").text(name.as_str()).text(
                                ": offset ",
                            ).num(fields[i].offset).text(" + size ").num(size).text(
                                " exceeds buffer length ",
                            ).num(byte_len).done(),
                        ),
                    );
                }
            },
        }
    }
    for i in 0..fields.len()
        invariant
            views == field_views(fields@),
            fields@.len() > 0,
            field_fault_from(views, byte_len as int, 0) is None,
            forall|a: int, b: int| 0 <= a < i && a < b < views.len() ==> !(#[trigger] share(
                views[a],
                views[b],
            )),
    {
        for j in i + 1..fields.len()
            invariant
                i < fields@.len(),
                views == field_views(fields@),
                field_fault_from(views, byte_len as int, 0) is None,
                forall|b: int| i < b < j ==> !(#[trigger] share(views[i as int], views[b])),
        {
            proof {
                lemma_sound_from(views, byte_len as int, 0, i as int);
                lemma_sound_from(views, byte_len as int, 0, j as int);
                assert(views[i as int] == fields@[i as int]@);
                assert(views[j as int] == fields@[j as int]@);
            }
            let (a, b): (usize, usize) = (fields[i].offset, fields[j].offset);
            if a < b + fields[j].kind.size_bytes() && b < a + fields[i].kind.size_bytes() {
                assert(share(views[i as int], views[j as int]));
                assert(overlapping(views));
                return Err(
                    ReedError::QFunction(
                        Message::new(
                            "QFunctionContext field layout: overlapping field byte ranges",
                        ).done(),
                    ),
                );
            }
        }
    }
    assert(!overlapping(views));
    Ok(())
}

// ── contexts ────────────────────────────────────────────────────────────────

/// Byte buffer with the user state of a quadrature function.
#[derive(Debug)]
pub struct QFunctionContext {
    data: Vec<u8>,
    fields: Option<Vec<QFunctionContextField>>,
    host_dirty: bool,
}

/// The mathematical content of a context: its bytes, its fields if it has any, and whether the
/// host bytes are newer than what a device may hold.
pub struct ContextView {
    pub bytes: Seq<u8>,
    pub fields: Option<Seq<FieldView>>,
    pub dirty: bool,
}

impl ContextView {
    /// The same context with other bytes, newer than what a device may hold.
    pub open spec fn written(self, bytes: Seq<u8>) -> ContextView {
        ContextView { bytes, fields: self.fields, dirty: true }
    }

    /// The same context with the flag set as given.
    pub open spec fn flagged(self, dirty: bool) -> ContextView {
        ContextView { bytes: self.bytes, fields: self.fields, dirty }
    }
}

/// A call on a context.
pub enum ContextCall {
    /// A query or a read.
    Read,
    /// [`QFunctionContext::mark_device_dirty`].
    MarkDeviceDirty,
    /// [`QFunctionContext::note_host_modified`].
    NoteHostModified,
    /// [`QFunctionContext::mark_host_synced_to_device`].
    MarkSynced,
    /// [`QFunctionContext::as_mut_bytes`], through which these bytes are left.
    MutBytes { bytes: Seq<u8> },
    /// A write of a word of `size` bytes at an offset.
    Write { offset: int, size: nat, word: nat },
    /// A write of a word in a named field; `what` names the function.
    WriteField { what: Seq<char>, name: Seq<char>, kind: QFunctionContextFieldKind, word: nat },
}

impl ContextView {
    /// The context after a call.
    pub open spec fn after(self, call: ContextCall) -> ContextView {
        match call {
            ContextCall::Read => self,
            ContextCall::MarkDeviceDirty | ContextCall::NoteHostModified => self.flagged(true),
            ContextCall::MarkSynced => self.flagged(false),
            ContextCall::MutBytes { bytes } => self.written(bytes),
            ContextCall::Write { offset, size, word } => if offset + size > self.bytes.len() {
                self.flagged(true)
            } else {
                self.written(with_word(self.bytes, offset, size, word))
            },
            ContextCall::WriteField { what, name, kind, word } => match lookup(
                self,
                what,
                name,
                kind,
            ) {
                Ok(f) => self.written(
                    with_word(self.bytes, f.offset as int, kind.size() as nat, word),
                ),
                Err(_) => self,
            },
        }
    }

    /// The context after a list of calls.
    pub open spec fn after_all(self, calls: Seq<ContextCall>) -> ContextView
        decreases calls.len(),
    {
        if calls.len() == 0 {
            self
        } else {
            self.after_all(calls.drop_last()).after(calls.last())
        }
    }

    /// The call changes the bytes, gives access to them, or says that they were changed: all
    /// writes, except those that find no field of their name and kind.
    pub open spec fn changed_by(self, call: ContextCall) -> bool {
        match call {
            ContextCall::Read | ContextCall::MarkSynced => false,
            ContextCall::WriteField { what, name, kind, .. } => lookup(self, what, name, kind)
                is Ok,
            _ => true,
        }
    }
}

/// None of the calls from `i` on tells the context that a device is up to date.
pub open spec fn never_synced(calls: Seq<ContextCall>, i: int) -> bool {
    forall|j: int| i <= j < calls.len() ==> !(#[trigger] calls[j] is MarkSynced)
}

/// Call `i` changes the context, and no later call tells it that a device is up to date.
pub open spec fn unsynced_change(c: ContextView, calls: Seq<ContextCall>, i: int) -> bool {
    &&& 0 <= i < calls.len()
    &&& c.after_all(calls.take(i)).changed_by(calls[i])
    &&& never_synced(calls, i + 1)
}

/// After any calls, a device needs the bytes exactly when they were changed after it was last up
/// to date: by one of the calls, or before all of them if none says that the device is up to date.
pub proof fn law_upload_follows_changes(c: ContextView, calls: Seq<ContextCall>)
    ensures
        c.after_all(calls).dirty <==> (exists|i: int| #[trigger] unsynced_change(c, calls, i)) || (
        c.dirty && never_synced(calls, 0)),
    decreases calls.len(),
{
    if calls.len() > 0 {
        let (rest, n) = (calls.drop_last(), calls.len() - 1);
        let last = calls.last();
        law_upload_follows_changes(c, rest);
        assert(calls.take(n) =~= rest);
        assert(calls[n] == last);
        if last is MarkSynced {
            assert forall|i: int| !#[trigger] unsynced_change(c, calls, i) by {
                if 0 <= i < n {
                    assert(calls[n] is MarkSynced);
                }
            }
            assert(!never_synced(calls, 0));
        } else if c.after_all(rest).changed_by(last) {
            assert(unsynced_change(c, calls, n));
        } else {
            assert forall|i: int| unsynced_change(c, rest, i) implies #[trigger] unsynced_change(
                c,
                calls,
                i,
            ) by {
                assert(calls.take(i) =~= rest.take(i));
                assert(calls[i] == rest[i]);
                assert forall|j: int| i + 1 <= j < calls.len() implies !(#[trigger] calls[j]
                    is MarkSynced) by {
                    if j < n {
                        assert(rest[j] == calls[j]);
                    }
                }
            }
            assert forall|i: int| unsynced_change(c, calls, i) implies #[trigger] unsynced_change(
                c,
                rest,
                i,
            ) by {
                assert(i != n);
                assert(calls.take(i) =~= rest.take(i));
                assert forall|j: int| i + 1 <= j < rest.len() implies !(#[trigger] rest[j]
                    is MarkSynced) by {
                    assert(rest[j] == calls[j]);
                }
            }
            if exists|i: int| #[trigger] unsynced_change(c, rest, i) {
                let i = choose|i: int| #[trigger] unsynced_change(c, rest, i);
                assert(unsynced_change(c, calls, i));
            }
            if exists|i: int| #[trigger] unsynced_change(c, calls, i) {
                let i = choose|i: int| #[trigger] unsynced_change(c, calls, i);
                assert(unsynced_change(c, rest, i));
            }
            assert(never_synced(calls, 0) == never_synced(rest, 0)) by {
                if never_synced(rest, 0) {
                    assert forall|j: int| 0 <= j < calls.len() implies !(#[trigger] calls[j]
                        is MarkSynced) by {
                        if j < n {
                            assert(rest[j] == calls[j]);
                        }
                    }
                }
                if never_synced(calls, 0) {
                    assert forall|j: int| 0 <= j < rest.len() implies !(#[trigger] rest[j]
                        is MarkSynced) by {
                        assert(rest[j] == calls[j]);
                    }
                }
            }
        }
    } else {
        assert(never_synced(calls, 0));
    }
}

impl View for QFunctionContext {
    type V = ContextView;

    closed spec fn view(&self) -> ContextView {
        ContextView {
            bytes: self.data@,
            fields: match self.fields {
                Some(f) => Some(field_views(f@)),
                None => None,
            },
            dirty: self.host_dirty,
        }
    }
}

/// A context is valid: its fields, if it has any, form a layout without fault.
pub open spec fn context_valid(c: ContextView) -> bool {
    match c.fields {
        Some(f) => layout_fault(f, c.bytes.len() as int) is None,
        None => true,
    }
}

/// Position of the first field with this name, at or after `i`.
pub open spec fn find_field(fields: Seq<FieldView>, name: Seq<char>, i: int) -> Option<int>
    decreases fields.len() - i,
{
    if i >= fields.len() {
        None
    } else if fields[i].name == name {
        Some(i)
    } else {
        find_field(fields, name, i + 1)
    }
}

/// Positions found are in range and have the name.
proof fn lemma_found(fields: Seq<FieldView>, name: Seq<char>, i: int)
    requires
        0 <= i,
        find_field(fields, name, i) is Some,
    ensures
        i <= find_field(fields, name, i)->0 < fields.len(),
        fields[find_field(fields, name, i)->0].name == name,
    decreases fields.len() - i,
{
    if i < fields.len() && fields[i].name != name {
        lemma_found(fields, name, i + 1);
    }
}

/// A lookup: the field of this name and kind, or the message of the refusal.
pub open spec fn lookup(
    c: ContextView,
    what: Seq<char>,
    name: Seq<char>,
    kind: QFunctionContextFieldKind,
) -> Result<FieldView, Seq<char>> {
    match c.fields {
        None => Err("named field access requires QFunctionContext::from_field_layout"@),
        Some(fields) => match find_field(fields, name, 0) {
            None => Err("unknown QFunctionContext field "@ + quoted(name)),
            Some(i) => if fields[i].kind != kind {
                Err(
                    what + ": field "@ + quoted(name) + " is "@ + fields[i].kind.name_text()
                        + ", not "@ + kind.name_text(),
                )
            } else {
                Ok(fields[i])
            },
        },
    }
}

/// A field that is found lies in the buffer.
proof fn lemma_lookup(
    c: ContextView,
    what: Seq<char>,
    name: Seq<char>,
    kind: QFunctionContextFieldKind,
)
    requires
        context_valid(c),
    ensures
        lookup(c, what, name, kind) matches Ok(f) ==> f.kind == kind && f.end()
            <= c.bytes.len() && f.end() <= usize::MAX,
{
    if let Ok(f) = lookup(c, what, name, kind) {
        let fields = c.fields->0;
        lemma_found(fields, name, 0);
        lemma_sound_from(fields, c.bytes.len() as int, 0, find_field(fields, name, 0)->0);
    }
}

/// The message of an access past the end of a buffer.
pub open spec fn range_message(what: Seq<char>, offset: nat, size: nat, len: nat) -> Seq<char> {
    what + ": offset "@ + decimal(offset) + " + "@ + decimal(size) + " exceeds buffer length "@
        + decimal(len)
}

fn range_error(what: &str, offset: usize, size: usize, len: usize) -> (e: ReedError)
    ensures
        e@ == (
            ErrorKind::QFunction,
            range_message(what@, offset as nat, size as nat, len as nat),
        ),
{
    ReedError::QFunction(
        Message::new(what).text(": offset ").num(offset).text(" + ").num(size).text(
            " exceeds buffer length ",
        ).num(len).done(),
    )
}

fn word_to_i32(w: u64) -> (v: i32)
    requires
        w < 0x1_0000_0000,
    ensures
        v == i32_of(w as nat),
{
    if w < 0x8000_0000 {
        w as i32
    } else {
        (w as i64 - 0x1_0000_0000) as i32
    }
}

fn i32_to_word(v: i32) -> (w: u64)
    ensures
        w == word_of_i32(v),
        w < 0x1_0000_0000,
{
    if v >= 0 {
        v as u64
    } else {
        (v as i64 + 0x1_0000_0000) as u64
    }
}

fn checked_read(what: &str, data: &[u8], offset: usize, size: usize) -> (r: ReedResult<u64>)
    requires
        size <= 8,
        offset + size <= usize::MAX,
    ensures
        if offset + size > data@.len() {
            refused(
                r,
                ErrorKind::QFunction,
                range_message(what@, offset as nat, size as nat, data@.len()),
            )
        } else {
            &&& r matches Ok(w)
            &&& w == word_at(data@, offset as int, size as nat)
            &&& w < word_bound(size as nat)
        },
{
    if offset + size > data.len() {
        return Err(range_error(what, offset, size, data.len()));
    }
    proof {
        lemma_word_bound(data@, offset as int, size as nat);
    }
    Ok(read_word(data, offset, size))
}

fn checked_write(what: &str, buf: &mut [u8], offset: usize, size: usize, w: u64) -> (r: ReedResult<
    (),
>)
    requires
        size <= 8,
        offset + size <= usize::MAX,
    ensures
        final(buf)@.len() == old(buf)@.len(),
        if offset + size > old(buf)@.len() {
            &&& refused(
                r,
                ErrorKind::QFunction,
                range_message(what@, offset as nat, size as nat, old(buf)@.len()),
            )
            &&& final(buf)@ == old(buf)@
        } else {
            &&& r is Ok
            &&& final(buf)@ == with_word(old(buf)@, offset as int, size as nat, w as nat)
        },
{
    if offset + size > buf.len() {
        return Err(range_error(what, offset, size, buf.len()));
    }
    write_word(buf, offset, size, w);
    Ok(())
}

fn zero_bytes(n: usize) -> (r: Vec<u8>)
    ensures
        r@ == Seq::new(n as nat, |i: int| 0u8),
{
    let mut r: Vec<u8> = Vec::new();
    for i in 0..n
        invariant
            r@.len() == i,
            forall|k: int| 0 <= k < i ==> #[trigger] r@[k] == 0u8,
    {
        r.push(0);
    }
    assert(r@ =~= Seq::new(n as nat, |i: int| 0u8));
    r
}

impl Clone for QFunctionContext {
    fn clone(&self) -> (r: Self)
        ensures
            r@ == self@,
    {
        let mut data: Vec<u8> = Vec::new();
        for i in 0..self.data.len()
            invariant
                data@ == self.data@.take(i as int),
        {
            data.push(self.data[i]);
            assert(data@ =~= self.data@.take(i + 1));
        }
        assert(data@ =~= self.data@);
        let fields = match &self.fields {
            Some(f) => {
                let mut copy: Vec<QFunctionContextField> = Vec::new();
                for i in 0..f.len()
                    invariant
                        field_views(copy@) == field_views(f@).take(i as int),
                {
                    let ghost before = copy@;
                    let field = f[i].clone();
                    copy.push(field);
                    assert(field_views(copy@) =~= field_views(before).push(field@));
                    assert(field_views(copy@) =~= field_views(f@).take(i + 1));
                }
                assert(field_views(copy@) =~= field_views(f@));
                Some(copy)
            },
            None => None,
        };
        QFunctionContext { data, fields, host_dirty: self.host_dirty }
    }
}

impl QFunctionContext {
    /// The context is valid.
    pub open spec fn wf(&self) -> bool {
        context_valid(self@)
    }

    /// A buffer of zeros without named fields.
    pub fn new(byte_len: usize) -> (c: Self)
        ensures
            c.wf(),
            c@ == (ContextView {
                bytes: Seq::new(byte_len as nat, |i: int| 0u8),
                fields: None,
                dirty: false,
            }),
    {
        QFunctionContext { data: zero_bytes(byte_len), fields: None, host_dirty: false }
    }

    /// A buffer of zeros that ends with the last named field.
    pub fn from_field_layout(fields: Vec<QFunctionContextField>) -> (r: ReedResult<Self>)
        requires
            forall|i: int| 0 <= i < fields@.len() ==> (#[trigger] fields@[i]@).end() <= usize::MAX,
        ensures
            ({
                let views = field_views(fields@);
                let len = layout_end(views);
                match layout_fault(views, len) {
                    Some(m) => refused(r, ErrorKind::QFunction, m),
                    None => r matches Ok(c) && c.wf() && c@ == (ContextView {
                        bytes: Seq::new(len as nat, |i: int| 0u8),
                        fields: Some(views),
                        dirty: false,
                    }),
                }
            }),
    {
        let ghost views = field_views(fields@);
        let mut byte_len: usize = 0;
        for i in 0..fields.len()
            invariant
                views == field_views(fields@),
                forall|k: int|
                    0 <= k < fields@.len() ==> (#[trigger] fields@[k]@).end() <= usize::MAX,
                byte_len == layout_end(views.take(i as int)),
        {
            assert(fields@[i as int]@.end() <= usize::MAX);
            let end: usize = fields[i].offset + fields[i].kind.size_bytes();
            proof {
                assert(views.take(i + 1).drop_last() =~= views.take(i as int));
                assert(views.take(i + 1).last() == fields@[i as int]@);
            }
            if end > byte_len {
                byte_len = end;
            }
        }
        assert(views.take(fields@.len() as int) =~= views);
        Self::from_field_layout_with_len(byte_len, fields)
    }

    /// A buffer of zeros of the given length with named fields.
    pub fn from_field_layout_with_len(
        byte_len: usize,
        fields: Vec<QFunctionContextField>,
    ) -> (r: ReedResult<Self>)
        ensures
            match layout_fault(field_views(fields@), byte_len as int) {
                Some(m) => refused(r, ErrorKind::QFunction, m),
                None => r matches Ok(c) && c.wf() && c@ == (ContextView {
                    bytes: Seq::new(byte_len as nat, |i: int| 0u8),
                    fields: Some(field_views(fields@)),
                    dirty: false,
                }),
            },
    {
        match validate_field_layout(&fields, byte_len) {
            Ok(_) => Ok(
                QFunctionContext {
                    data: zero_bytes(byte_len),
                    fields: Some(fields),
                    host_dirty: false,
                },
            ),
            Err(e) => Err(e),
        }
    }

    /// Takes over raw bytes, newer than what a device may hold.
    pub fn from_bytes(data: Vec<u8>) -> (c: Self)
        ensures
            c.wf(),
            c@ == (ContextView { bytes: data@, fields: None, dirty: true }),
    {
        QFunctionContext { data, fields: None, host_dirty: true }
    }

    /// The named fields, if the context has any.
    pub fn registered_fields(&self) -> (r: Option<&[QFunctionContextField]>)
        ensures
            match r {
                Some(f) => self@.fields == Some(field_views(f@)),
                None => self@.fields is None,
            },
    {
        match &self.fields {
            Some(f) => Some(f.as_slice()),
            None => None,
        }
    }

    /// The layout of a scaling factor: one double named `alpha`.
    pub fn gallery_scale_fields() -> (r: Vec<QFunctionContextField>)
        ensures
            field_views(r@) == seq![
                FieldView { name: "alpha"@, offset: 0, kind: QFunctionContextFieldKind::F64 },
            ],
    {
        let r = vec![
            QFunctionContextField {
                name: "alpha".to_owned(),
                offset: 0,
                kind: QFunctionContextFieldKind::F64,
            },
        ];
        assert(field_views(r@) =~= seq![
            FieldView { name: "alpha"@, offset: 0, kind: QFunctionContextFieldKind::F64 },
        ]);
        r
    }

    /// Whether the host bytes are newer than what a device may hold.
    pub fn host_needs_device_upload(&self) -> (b: bool)
        ensures
            b == self@.dirty,
    {
        self.host_dirty
    }

    /// Notes that the device copy is out of date.
    pub fn mark_device_dirty(&mut self)
        ensures
            final(self)@ == old(self)@.after(ContextCall::MarkDeviceDirty),
            final(self)@ == old(self)@.flagged(true),
    {
        self.host_dirty = true;
    }

    /// Notes that the device copy is up to date.
    pub fn mark_host_synced_to_device(&mut self)
        ensures
            final(self)@ == old(self)@.after(ContextCall::MarkSynced),
            final(self)@ == old(self)@.flagged(false),
    {
        self.host_dirty = false;
    }

    /// Notes that the host bytes have changed.
    pub fn note_host_modified(&mut self)
        ensures
            final(self)@ == old(self)@.after(ContextCall::NoteHostModified),
            final(self)@ == old(self)@.flagged(true),
    {
        self.host_dirty = true;
    }

    /// Length of the buffer.
    pub fn byte_len(&self) -> (n: usize)
        ensures
            n == self@.bytes.len(),
    {
        self.data.len()
    }

    /// The bytes.
    pub fn as_bytes(&self) -> (b: &[u8])
        ensures
            b@ == self@.bytes,
    {
        self.data.as_slice()
    }

    /// The bytes, for writing.
    pub fn as_mut_bytes(&mut self) -> (b: &mut [u8])
        ensures
            b@ == old(self)@.bytes,
            final(b)@.len() == b@.len() ==> final(self)@ == old(self)@.after(
                ContextCall::MutBytes { bytes: final(b)@ },
            ),
    {
        self.host_dirty = true;
        self.data.as_mut_slice()
    }

    /// Reads the bits of a double at `offset` of a byte slice.
    pub fn read_f64_bits_le_bytes(data: &[u8], offset: usize) -> (r: ReedResult<u64>)
        requires
            offset + 8 <= usize::MAX,
        ensures
            if offset + 8 > data@.len() {
                refused(
                    r,
                    ErrorKind::QFunction,
                    range_message("read_f64_le_bytes"@, offset as nat, 8, data@.len()),
                )
            } else {
                r matches Ok(v) && v == word_at(data@, offset as int, 8)
            },
    {
        proof {
            lemma_bounds();
        }
        checked_read("read_f64_le_bytes", data, offset, 8)
    }

    /// Reads the bits of a double at `offset`.
    pub fn read_f64_bits_le(&self, offset: usize) -> (r: ReedResult<u64>)
        requires
            offset + 8 <= usize::MAX,
        ensures
            if offset + 8 > self@.bytes.len() {
                refused(
                    r,
                    ErrorKind::QFunction,
                    range_message("read_f64_le_bytes"@, offset as nat, 8, self@.bytes.len()),
                )
            } else {
                r matches Ok(v) && v == word_at(self@.bytes, offset as int, 8)
            },
    {
        Self::read_f64_bits_le_bytes(self.data.as_slice(), offset)
    }

    /// Writes the bits of a double at `offset` of a byte slice.
    pub fn write_f64_bits_le_bytes(buf: &mut [u8], offset: usize, v: u64) -> (r: ReedResult<()>)
        requires
            offset + 8 <= usize::MAX,
        ensures
            final(buf)@.len() == old(buf)@.len(),
            if offset + 8 > old(buf)@.len() {
                &&& refused(
                    r,
                    ErrorKind::QFunction,
                    range_message("write_f64_le_bytes"@, offset as nat, 8, old(buf)@.len()),
                )
                &&& final(buf)@ == old(buf)@
            } else {
                &&& r is Ok
                &&& final(buf)@ == with_word(old(buf)@, offset as int, 8, v as nat)
            },
    {
        checked_write("write_f64_le_bytes", buf, offset, 8, v)
    }

    /// Writes the bits of a double at `offset`.
    pub fn write_f64_bits_le(&mut self, offset: usize, v: u64) -> (r: ReedResult<()>)
        requires
            offset + 8 <= usize::MAX,
        ensures
            final(self)@ == old(self)@.after(
                ContextCall::Write { offset: offset as int, size: 8, word: v as nat },
            ),
            if offset + 8 > old(self)@.bytes.len() {
                &&& refused(
                    r,
                    ErrorKind::QFunction,
                    range_message(
                        "write_f64_le_bytes"@,
                        offset as nat,
                        8,
                        old(self)@.bytes.len(),
                    ),
                )
                &&& final(self)@ == old(self)@.flagged(true)
            } else {
                &&& r is Ok
                &&& final(self)@ == old(self)@.written(
                    with_word(old(self)@.bytes, offset as int, 8, v as nat),
                )
            },
            old(self).wf() ==> final(self).wf(),
    {
        self.host_dirty = true;
        Self::write_f64_bits_le_bytes(self.data.as_mut_slice(), offset, v)
    }

    /// Reads the bits of a single-precision number at `offset` of a byte slice.
    pub fn read_f32_bits_le_bytes(data: &[u8], offset: usize) -> (r: ReedResult<u32>)
        requires
            offset + 4 <= usize::MAX,
        ensures
            if offset + 4 > data@.len() {
                refused(
                    r,
                    ErrorKind::QFunction,
                    range_message("read_f32_le_bytes"@, offset as nat, 4, data@.len()),
                )
            } else {
                r matches Ok(v) && v == word_at(data@, offset as int, 4)
            },
    {
        proof {
            lemma_bounds();
        }
        match checked_read("read_f32_le_bytes", data, offset, 4) {
            Ok(w) => Ok(w as u32),
            Err(e) => Err(e),
        }
    }

    /// Reads the bits of a single-precision number at `offset`.
    pub fn read_f32_bits_le(&self, offset: usize) -> (r: ReedResult<u32>)
        requires
            offset + 4 <= usize::MAX,
        ensures
            if offset + 4 > self@.bytes.len() {
                refused(
                    r,
                    ErrorKind::QFunction,
                    range_message("read_f32_le_bytes"@, offset as nat, 4, self@.bytes.len()),
                )
            } else {
                r matches Ok(v) && v == word_at(self@.bytes, offset as int, 4)
            },
    {
        Self::read_f32_bits_le_bytes(self.data.as_slice(), offset)
    }

    /// Writes the bits of a single-precision number at `offset` of a byte slice.
    pub fn write_f32_bits_le_bytes(buf: &mut [u8], offset: usize, v: u32) -> (r: ReedResult<()>)
        requires
            offset + 4 <= usize::MAX,
        ensures
            final(buf)@.len() == old(buf)@.len(),
            if offset + 4 > old(buf)@.len() {
                &&& refused(
                    r,
                    ErrorKind::QFunction,
                    range_message("write_f32_le_bytes"@, offset as nat, 4, old(buf)@.len()),
                )
                &&& final(buf)@ == old(buf)@
            } else {
                &&& r is Ok
                &&& final(buf)@ == with_word(old(buf)@, offset as int, 4, v as nat)
            },
    {
        checked_write("write_f32_le_bytes", buf, offset, 4, v as u64)
    }

    /// Writes the bits of a single-precision number at `offset`.
    pub fn write_f32_bits_le(&mut self, offset: usize, v: u32) -> (r: ReedResult<()>)
        requires
            offset + 4 <= usize::MAX,
        ensures
            final(self)@ == old(self)@.after(
                ContextCall::Write { offset: offset as int, size: 4, word: v as nat },
            ),
            if offset + 4 > old(self)@.bytes.len() {
                &&& refused(
                    r,
                    ErrorKind::QFunction,
                    range_message(
                        "write_f32_le_bytes"@,
                        offset as nat,
                        4,
                        old(self)@.bytes.len(),
                    ),
                )
                &&& final(self)@ == old(self)@.flagged(true)
            } else {
                &&& r is Ok
                &&& final(self)@ == old(self)@.written(
                    with_word(old(self)@.bytes, offset as int, 4, v as nat),
                )
            },
            old(self).wf() ==> final(self).wf(),
    {
        self.host_dirty = true;
        Self::write_f32_bits_le_bytes(self.data.as_mut_slice(), offset, v)
    }

    /// Reads the integer at `offset` of a byte slice.
    pub fn read_i32_le_bytes(data: &[u8], offset: usize) -> (r: ReedResult<i32>)
        requires
            offset + 4 <= usize::MAX,
        ensures
            if offset + 4 > data@.len() {
                refused(
                    r,
                    ErrorKind::QFunction,
                    range_message("read_i32_le_bytes"@, offset as nat, 4, data@.len()),
                )
            } else {
                r matches Ok(v) && v == i32_of(word_at(data@, offset as int, 4))
            },
    {
        proof {
            lemma_bounds();
        }
        match checked_read("read_i32_le_bytes", data, offset, 4) {
            Ok(w) => Ok(word_to_i32(w)),
            Err(e) => Err(e),
        }
    }

    /// Reads the integer at `offset`.
    pub fn read_i32_le(&self, offset: usize) -> (r: ReedResult<i32>)
        requires
            offset + 4 <= usize::MAX,
        ensures
            if offset + 4 > self@.bytes.len() {
                refused(
                    r,
                    ErrorKind::QFunction,
                    range_message("read_i32_le_bytes"@, offset as nat, 4, self@.bytes.len()),
                )
            } else {
                r matches Ok(v) && v == i32_of(word_at(self@.bytes, offset as int, 4))
            },
    {
        Self::read_i32_le_bytes(self.data.as_slice(), offset)
    }

    /// Writes the integer at `offset` of a byte slice.
    pub fn write_i32_le_bytes(buf: &mut [u8], offset: usize, v: i32) -> (r: ReedResult<()>)
        requires
            offset + 4 <= usize::MAX,
        ensures
            final(buf)@.len() == old(buf)@.len(),
            if offset + 4 > old(buf)@.len() {
                &&& refused(
                    r,
                    ErrorKind::QFunction,
                    range_message("write_i32_le_bytes"@, offset as nat, 4, old(buf)@.len()),
                )
                &&& final(buf)@ == old(buf)@
            } else {
                &&& r is Ok
                &&& final(buf)@ == with_word(old(buf)@, offset as int, 4, word_of_i32(v))
            },
    {
        checked_write("write_i32_le_bytes", buf, offset, 4, i32_to_word(v))
    }

    /// Writes the integer at `offset`.
    pub fn write_i32_le(&mut self, offset: usize, v: i32) -> (r: ReedResult<()>)
        requires
            offset + 4 <= usize::MAX,
        ensures
            final(self)@ == old(self)@.after(
                ContextCall::Write { offset: offset as int, size: 4, word: word_of_i32(v) },
            ),
            if offset + 4 > old(self)@.bytes.len() {
                &&& refused(
                    r,
                    ErrorKind::QFunction,
                    range_message(
                        "write_i32_le_bytes"@,
                        offset as nat,
                        4,
                        old(self)@.bytes.len(),
                    ),
                )
                &&& final(self)@ == old(self)@.flagged(true)
            } else {
                &&& r is Ok
                &&& final(self)@ == old(self)@.written(
                    with_word(old(self)@.bytes, offset as int, 4, word_of_i32(v)),
                )
            },
            old(self).wf() ==> final(self).wf(),
    {
        self.host_dirty = true;
        Self::write_i32_le_bytes(self.data.as_mut_slice(), offset, v)
    }

    /// Finds the field of a name, and requires it to be of a kind.
    fn typed_field(&self, what: &str, name: &str, kind: QFunctionContextFieldKind) -> (r: ReedResult<
        usize,
    >)
        ensures
            match lookup(self@, what@, name@, kind) {
                Ok(f) => r matches Ok(offset) && offset == f.offset,
                Err(m) => refused(r, ErrorKind::QFunction, m),
            },
    {
        let fields = match &self.fields {
            Some(f) => f,
            None => {
                return Err(
                    ReedError::QFunction(
                        Message::new(
                            "named field access requires QFunctionContext::from_field_layout",
                        ).done(),
                    ),
                );
            },
        };
        let ghost views = field_views(fields@);
        let wanted = name.to_owned();
        for i in 0..fields.len()
            invariant
                views == field_views(fields@),
                self@.fields == Some(views),
                wanted@ == name@,
                find_field(views, name@, 0) == find_field(views, name@, i as int),
        {
            assert(views[i as int] == fields@[i as int]@);
            if fields[i].name == wanted {
                let found = fields[i].kind;
                if found != kind {
                    let shown = quote(name);
                    return Err(
                        ReedError::QFunction(
                            Message::new(what).text(": field ").text(shown.as_str()).text(
                                " is ",
                            ).text(found.name()).text(", not ").text(kind.name()).done(),
                        ),
                    );
                }
                return Ok(fields[i].offset);
            }
        }
        let shown = quote(name);
        Err(
            ReedError::QFunction(
                Message::new("unknown QFunctionContext field ").text(shown.as_str()).done(),
            ),
        )
    }

    /// Reads the bits of a double in a named field.
    pub fn read_field_f64_bits(&self, name: &str) -> (r: ReedResult<u64>)
        requires
            self.wf(),
        ensures
            match lookup(self@, "read_field_f64"@, name@, QFunctionContextFieldKind::F64) {
                Ok(f) => r matches Ok(v) && v == word_at(self@.bytes, f.offset as int, 8),
                Err(m) => refused(r, ErrorKind::QFunction, m),
            },
    {
        match self.typed_field("read_field_f64", name, QFunctionContextFieldKind::F64) {
            Ok(offset) => {
                proof {
                    lemma_lookup(self@, "read_field_f64"@, name@, QFunctionContextFieldKind::F64);
                }
                self.read_f64_bits_le(offset)
            },
            Err(e) => Err(e),
        }
    }

    /// Writes the bits of a double in a named field.
    pub fn write_field_f64_bits(&mut self, name: &str, v: u64) -> (r: ReedResult<()>)
        requires
            old(self).wf(),
        ensures
            final(self)@ == old(self)@.after(
                ContextCall::WriteField {
                    what: "write_field_f64"@,
                    name: name@,
                    kind: QFunctionContextFieldKind::F64,
                    word: v as nat,
                },
            ),
            match lookup(old(self)@, "write_field_f64"@, name@, QFunctionContextFieldKind::F64) {
                Ok(f) => {
                    &&& r is Ok
                    &&& final(self)@ == old(self)@.written(
                        with_word(old(self)@.bytes, f.offset as int, 8, v as nat),
                    )
                },
                Err(m) => {
                    &&& refused(r, ErrorKind::QFunction, m)
                    &&& final(self)@ == old(self)@
                },
            },
            final(self).wf(),
    {
        match self.typed_field("write_field_f64", name, QFunctionContextFieldKind::F64) {
            Ok(offset) => {
                proof {
                    lemma_lookup(self@, "write_field_f64"@, name@, QFunctionContextFieldKind::F64);
                }
                self.write_f64_bits_le(offset, v)
            },
            Err(e) => Err(e),
        }
    }

    /// Reads the bits of a single-precision number in a named field.
    pub fn read_field_f32_bits(&self, name: &str) -> (r: ReedResult<u32>)
        requires
            self.wf(),
        ensures
            match lookup(self@, "read_field_f32"@, name@, QFunctionContextFieldKind::F32) {
                Ok(f) => r matches Ok(v) && v == word_at(self@.bytes, f.offset as int, 4),
                Err(m) => refused(r, ErrorKind::QFunction, m),
            },
    {
        match self.typed_field("read_field_f32", name, QFunctionContextFieldKind::F32) {
            Ok(offset) => {
                proof {
                    lemma_lookup(self@, "read_field_f32"@, name@, QFunctionContextFieldKind::F32);
                }
                self.read_f32_bits_le(offset)
            },
            Err(e) => Err(e),
        }
    }

    /// Writes the bits of a single-precision number in a named field.
    pub fn write_field_f32_bits(&mut self, name: &str, v: u32) -> (r: ReedResult<()>)
        requires
            old(self).wf(),
        ensures
            final(self)@ == old(self)@.after(
                ContextCall::WriteField {
                    what: "write_field_f32"@,
                    name: name@,
                    kind: QFunctionContextFieldKind::F32,
                    word: v as nat,
                },
            ),
            match lookup(old(self)@, "write_field_f32"@, name@, QFunctionContextFieldKind::F32) {
                Ok(f) => {
                    &&& r is Ok
                    &&& final(self)@ == old(self)@.written(
                        with_word(old(self)@.bytes, f.offset as int, 4, v as nat),
                    )
                },
                Err(m) => {
                    &&& refused(r, ErrorKind::QFunction, m)
                    &&& final(self)@ == old(self)@
                },
            },
            final(self).wf(),
    {
        match self.typed_field("write_field_f32", name, QFunctionContextFieldKind::F32) {
            Ok(offset) => {
                proof {
                    lemma_lookup(self@, "write_field_f32"@, name@, QFunctionContextFieldKind::F32);
                }
                self.write_f32_bits_le(offset, v)
            },
            Err(e) => Err(e),
        }
    }

    /// Reads the integer in a named field.
    pub fn read_field_i32(&self, name: &str) -> (r: ReedResult<i32>)
        requires
            self.wf(),
        ensures
            match lookup(self@, "read_field_i32"@, name@, QFunctionContextFieldKind::I32) {
                Ok(f) => r matches Ok(v) && v == i32_of(word_at(self@.bytes, f.offset as int, 4)),
                Err(m) => refused(r, ErrorKind::QFunction, m),
            },
    {
        match self.typed_field("read_field_i32", name, QFunctionContextFieldKind::I32) {
            Ok(offset) => {
                proof {
                    lemma_lookup(self@, "read_field_i32"@, name@, QFunctionContextFieldKind::I32);
                }
                self.read_i32_le(offset)
            },
            Err(e) => Err(e),
        }
    }

    /// Writes the integer in a named field.
    pub fn write_field_i32(&mut self, name: &str, v: i32) -> (r: ReedResult<()>)
        requires
            old(self).wf(),
        ensures
            final(self)@ == old(self)@.after(
                ContextCall::WriteField {
                    what: "write_field_i32"@,
                    name: name@,
                    kind: QFunctionContextFieldKind::I32,
                    word: word_of_i32(v),
                },
            ),
            match lookup(old(self)@, "write_field_i32"@, name@, QFunctionContextFieldKind::I32) {
                Ok(f) => {
                    &&& r is Ok
                    &&& final(self)@ == old(self)@.written(
                        with_word(old(self)@.bytes, f.offset as int, 4, word_of_i32(v)),
                    )
                },
                Err(m) => {
                    &&& refused(r, ErrorKind::QFunction, m)
                    &&& final(self)@ == old(self)@
                },
            },
            final(self).wf(),
    {
        match self.typed_field("write_field_i32", name, QFunctionContextFieldKind::I32) {
            Ok(offset) => {
                proof {
                    lemma_lookup(self@, "write_field_i32"@, name@, QFunctionContextFieldKind::I32);
                }
                self.write_i32_le(offset, v)
            },
            Err(e) => Err(e),
        }
    }
}

} // verus!
