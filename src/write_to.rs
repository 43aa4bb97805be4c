//! Bounded, allocation-free text formatting into a caller-owned byte buffer.
use vstd::prelude::*;
use vstd::slice::slice_subrange;
use vstd::array::array_as_slice;
use vstd::utf8::*;
use vstd::string::StringSliceAdditionalSpecFns;

verus! {

broadcast use vstd::utf8::group_utf8_lib;

/// The rendered text does not fit in the buffer it was written into.
#[derive(Clone, Copy, Debug, PartialEq, Eq, Structural)]
pub enum FormatError {
    Overflow,
}

/// One part of a template: literal text, or an unsigned integer shown in decimal.
#[derive(Clone, Copy, Debug)]
pub enum Piece<'t> {
    Text(&'t str),
    Uint(u32),
}

/// ASCII code of the decimal digit `d`.
pub open spec fn digit_byte(d: nat) -> u8 {
    (48 + d) as u8
}

/// Decimal representation of `n`, most significant digit first, without leading zeros.
pub open spec fn decimal(n: nat) -> Seq<u8>
    decreases n,
{
    if n < 10 {
        seq![digit_byte(n)]
    } else {
        decimal(n / 10).push(digit_byte(n % 10))
    }
}

/// The bytes that one piece contributes to the output.
pub open spec fn piece_bytes<'t>(p: Piece<'t>) -> Seq<u8> {
    match p {
        Piece::Text(s) => s.spec_bytes(),
        Piece::Uint(n) => decimal(n as nat),
    }
}

/// The full text of a template: its pieces' bytes one after another.
pub open spec fn render<'t>(pieces: Seq<Piece<'t>>) -> Seq<u8>
    decreases pieces.len(),
{
    if pieces.len() == 0 {
        seq![]
    } else {
        render(pieces.drop_last()) + piece_bytes(pieces.last())
    }
}

spec fn pow10(k: nat) -> nat
    decreases k,
{
    if k == 0 {
        1
    } else {
        10 * pow10((k - 1) as nat)
    }
}

proof fn lemma_decimal_len(n: nat, k: nat)
    requires
        1 <= k,
        n < pow10(k),
    ensures
        1 <= decimal(n).len() <= k,
    decreases n,
{
    if n >= 10 {
        assert(k >= 2) by {
            if k == 1 {
                assert(pow10(1) == 10 * pow10(0));
            }
        };
        assert(n / 10 < pow10((k - 1) as nat)) by (nonlinear_arith)
            requires
                n < 10 * pow10((k - 1) as nat),
        ;
        lemma_decimal_len(n / 10, (k - 1) as nat);
    }
}

proof fn lemma_decimal_u32_len(n: u32)
    ensures
        1 <= decimal(n as nat).len() <= 10,
{
    reveal_with_fuel(pow10, 11);
    lemma_decimal_len(n as nat, 10);
}

proof fn lemma_decimal_valid(n: nat)
    ensures
        valid_utf8(decimal(n)),
    decreases n,
{
    let d = digit_byte(n % 10);
    assert(is_leading_byte_width_1(d)) by {
        let x: u8 = d;
        assert(48 <= x <= 57);
        assert(48 <= x <= 57 ==> is_leading_byte_width_1(x)) by (bit_vector);
    };
    let one = seq![d];
    assert(valid_utf8(one)) by {
        assert(one.subrange(0, 0) =~= Seq::<u8>::empty());
        partial_valid_utf8_extend_ascii_block(one, 0, 1);
        assert(one.subrange(0, 1) =~= one);
    };
    if n >= 10 {
        lemma_decimal_valid(n / 10);
        valid_utf8_concat(decimal(n / 10), one);
        assert(decimal(n / 10) + one =~= decimal(n));
    } else {
        assert(one =~= decimal(n));
    }
}

proof fn lemma_render_append<'t>(a: Seq<Piece<'t>>, b: Seq<Piece<'t>>)
    ensures
        render(a + b) == render(a) + render(b),
    decreases b.len(),
{
    if b.len() == 0 {
        assert(a + b =~= a);
        assert(render(a) + render(b) =~= render(a));
    } else {
        assert((a + b).drop_last() =~= a + b.drop_last());
        lemma_render_append(a, b.drop_last());
        assert(render(a + b) =~= render(a) + render(b));
    }
}

/// Writes the decimal digits of `n` into `out` from index `len` on; returns the index past them.
fn put_decimal(n: u32, out: &mut [u8; 10], len: usize) -> (r: usize)
    requires
        len + decimal(n as nat).len() <= 10,
    ensures
        r == len + decimal(n as nat).len(),
        final(out)@.subrange(0, r as int) == old(out)@.subrange(0, len as int) + decimal(
            n as nat,
        ),
    decreases n,
{
    let mut l: usize = len;
    if n >= 10 {
        l = put_decimal(n / 10, out, len);
    }
    let ghost before = out@;
    out[l] = 48u8 + (n % 10) as u8;
    proof {
        assert(out@.subrange(0, l as int) =~= before.subrange(0, l as int));
        assert(out@.subrange(0, l + 1) =~= out@.subrange(0, l as int).push(
            digit_byte((n % 10) as nat),
        ));
    }
    l + 1
}

/// Relies on core::str::from_utf8: it succeeds exactly on valid UTF-8 and views the same bytes.
#[verifier::external_body]
fn str_from_utf8(v: &[u8]) -> (r: Option<&str>)
    ensures
        match r {
            Some(s) => s.spec_bytes() == v@,
            None => !valid_utf8(v@),
        },
{
    core::str::from_utf8(v).ok()
}

/// A cursor over a fixed-capacity byte buffer that text is written into.
///
/// `used` advances by the full length of every accepted write, so it passes the
/// capacity once a write did not fit; from then on every write is refused.
pub struct WriteTo<'a> {
    buffer: &'a mut [u8],
    used: usize,
    written: Ghost<Seq<u8>>,
}

impl<'a> WriteTo<'a> {
    /// The number of bytes that fit in the buffer.
    pub open spec fn capacity(&self) -> nat {
        self.bytes().len()
    }

    /// Every byte accepted so far, including those of a write that did not fit.
    pub closed spec fn written(&self) -> Seq<u8> {
        self.written@
    }

    /// The bytes the buffer holds now.
    pub closed spec fn bytes(&self) -> Seq<u8> {
        self.buffer@
    }

    /// The buffer holds the accepted bytes, as far as they fit.
    pub open spec fn holds_written(&self) -> bool {
        forall|i: int|
            0 <= i < self.written().len() && i < self.capacity() ==> #[trigger] self.bytes()[i]
                == self.written()[i]
    }

    /// Going from `self` to `next` changed no byte outside the text accepted in between.
    pub open spec fn unchanged_outside(&self, next: &Self) -> bool {
        &&& next.capacity() == self.capacity()
        &&& forall|i: int|
            0 <= i < self.capacity() && !(self.written().len() <= i < next.written().len())
                ==> #[trigger] next.bytes()[i] == self.bytes()[i]
    }

    /// The text no longer fits: every further write is refused.
    pub open spec fn overflowed(&self) -> bool {
        self.written().len() > self.capacity()
    }

    pub closed spec fn wf(&self) -> bool {
        &&& self.buffer@.len() < usize::MAX
        &&& self.used as int == if self.written@.len() < usize::MAX {
            self.written@.len() as int
        } else {
            usize::MAX as int
        }
        &&& valid_utf8(self.written@)
        &&& forall|i: int|
            0 <= i < self.written@.len() && i < self.buffer@.len() ==> self.buffer@[i]
                == #[trigger] self.written@[i]
    }

    pub fn new(buffer: &'a mut [u8]) -> (r: Self)
        requires
            old(buffer)@.len() < usize::MAX,
        ensures
            r.wf(),
            r.capacity() == old(buffer)@.len(),
            r.written() == Seq::<u8>::empty(),
            r.bytes() == old(buffer)@,
            r.holds_written(),
    {
        WriteTo { buffer, used: 0, written: Ghost(Seq::empty()) }
    }

    /// Copies as much of `bytes` as fits and advances the cursor by all of it.
    fn write_bytes(&mut self, bytes: &[u8]) -> (r: Result<(), FormatError>)
        requires
            old(self).wf(),
            valid_utf8(bytes@),
        ensures
            final(self).wf(),
            final(self).holds_written(),
            old(self).unchanged_outside(&*final(self)),
            final(final(self).buffer)@ == final(old(self).buffer)@,
            old(self).overflowed() ==> final(self).written() == old(self).written(),
            !old(self).overflowed() ==> final(self).written() == old(self).written() + bytes@,
            r is Ok <==> !final(self).overflowed() && !old(self).overflowed(),
            r is Err ==> r == Err::<(), FormatError>(FormatError::Overflow),
    {
        if self.used > self.buffer.len() {
            return Err(FormatError::Overflow);
        }
        let start = self.used;
        let remaining = self.buffer.len() - start;
        let write_num = if bytes.len() < remaining {
            bytes.len()
        } else {
            remaining
        };
        let ghost old_buf = self.buffer@;
        assert(self.written@.len() == start);
        let mut i: usize = 0;
        while i < write_num
            invariant
                0 <= i <= write_num,
                write_num <= bytes@.len(),
                start + write_num <= old_buf.len(),
                self.buffer@.len() == old_buf.len(),
                old_buf.len() < usize::MAX,
                self.used == start,
                self.written@ == old(self).written@,
                self.written@.len() == start,
                forall|j: int| 0 <= j < start ==> self.buffer@[j] == old_buf[j],
                forall|j: int| 0 <= j < i ==> self.buffer@[start + j] == bytes@[j],
                forall|j: int| start + i <= j < old_buf.len() ==> self.buffer@[j] == old_buf[j],
                final(self.buffer)@ == final(old(self).buffer)@,
            decreases write_num - i,
        {
            self.buffer[start + i] = bytes[i];
            i = i + 1;
        }
        let ghost new_written = self.written@ + bytes@;
        self.used = self.used.saturating_add(bytes.len());
        self.written = Ghost(new_written);
        proof {
            assert forall|j: int|
                0 <= j < new_written.len() && j < self.buffer@.len() implies self.buffer@[j]
                == #[trigger] new_written[j] by {
                if j >= start {
                    assert(self.buffer@[start + (j - start)] == bytes@[j - start]);
                }
            }
        }
        if write_num < bytes.len() {
            Err(FormatError::Overflow)
        } else {
            Ok(())
        }
    }

    /// Appends the UTF-8 bytes of `s`.
    pub fn write_str(&mut self, s: &str) -> (r: Result<(), FormatError>)
        requires
            old(self).wf(),
        ensures
            final(self).wf(),
            final(self).holds_written(),
            old(self).unchanged_outside(&*final(self)),
            old(self).overflowed() ==> final(self).written() == old(self).written(),
            !old(self).overflowed() ==> final(self).written() == old(self).written()
                + s.spec_bytes(),
            r is Ok <==> !final(self).overflowed() && !old(self).overflowed(),
            r is Err ==> r == Err::<(), FormatError>(FormatError::Overflow),
    {
        let bytes = s.as_bytes();
        self.write_bytes(bytes)
    }

    /// Appends the decimal digits of `n`.
    pub fn write_uint(&mut self, n: u32) -> (r: Result<(), FormatError>)
        requires
            old(self).wf(),
        ensures
            final(self).wf(),
            final(self).holds_written(),
            old(self).unchanged_outside(&*final(self)),
            old(self).overflowed() ==> final(self).written() == old(self).written(),
            !old(self).overflowed() ==> final(self).written() == old(self).written()
                + decimal(n as nat),
            r is Ok <==> !final(self).overflowed() && !old(self).overflowed(),
            r is Err ==> r == Err::<(), FormatError>(FormatError::Overflow),
    {
        self.push_uint(n)
    }

    fn push_uint(&mut self, n: u32) -> (r: Result<(), FormatError>)
        requires
            old(self).wf(),
        ensures
            final(self).wf(),
            final(self).holds_written(),
            old(self).unchanged_outside(&*final(self)),
            final(final(self).buffer)@ == final(old(self).buffer)@,
            old(self).overflowed() ==> final(self).written() == old(self).written(),
            !old(self).overflowed() ==> final(self).written() == old(self).written()
                + decimal(n as nat),
            r is Ok <==> !final(self).overflowed() && !old(self).overflowed(),
            r is Err ==> r == Err::<(), FormatError>(FormatError::Overflow),
    {
        let mut digits: [u8; 10] = [0u8; 10];
        proof {
            lemma_decimal_u32_len(n);
        }
        let k = put_decimal(n, &mut digits, 0);
        let view = slice_subrange(array_as_slice(&digits), 0, k);
        proof {
            assert(view@ =~= decimal(n as nat));
            lemma_decimal_valid(n as nat);
        }
        self.write_bytes(view)
    }

    /// The text written so far, or `None` once it has outgrown the buffer.
    ///
    /// Only whole UTF-8 texts are ever accepted, so the bytes in use always
    /// form valid text; the conversion below is proved never to reject them.
    pub fn as_str(self) -> (r: Option<&'a str>)
        requires
            self.wf(),
        ensures
            r is Some <==> !self.overflowed(),
            r matches Some(s) ==> s.spec_bytes() == self.written(),
    {
        if self.used <= self.buffer.len() {
            let used = self.used;
            let ghost written = self.written@;
            let whole: &'a [u8] = self.buffer;
            let prefix = slice_subrange(whole, 0, used);
            proof {
                assert(prefix@ =~= written);
            }
            str_from_utf8(prefix)
        } else {
            None
        }
    }
}

/// Renders `pieces` into `buffer`, and views the result as text.
///
/// Succeeds exactly when the whole rendered text fits; a text that does not fit
/// yields no view at all, never a truncated one. The text is the leading part
/// of the buffer, and the bytes after it are left as they were.
pub fn show<'a, 't>(buffer: &'a mut [u8], pieces: &[Piece<'t>]) -> (r: Result<
    &'a str,
    FormatError,
>)
    requires
        old(buffer)@.len() < usize::MAX,
    ensures
        r is Ok <==> render(pieces@).len() <= old(buffer)@.len(),
        r matches Ok(s) ==> s.spec_bytes() == render(pieces@),
        r is Err ==> r == Err::<&'a str, FormatError>(FormatError::Overflow),
        final(buffer)@.len() == old(buffer)@.len(),
        r matches Ok(s) ==> final(buffer)@.subrange(0, s.spec_bytes().len() as int)
            == s.spec_bytes(),
        forall|i: int|
            render(pieces@).len() <= i < old(buffer)@.len() ==> #[trigger] final(buffer)@[i]
                == old(buffer)@[i],
{
    let ghost orig = old(buffer)@;
    let ghost cap = orig.len();
    let ghost fin = final(buffer)@;
    let mut w = WriteTo { buffer, used: 0, written: Ghost(Seq::empty()) };
    assert(final(w.buffer)@ == fin);
    let mut i: usize = 0;
    let mut failed = false;
    while i < pieces.len() && !failed
        invariant
            0 <= i <= pieces@.len(),
            w.wf(),
            w.holds_written(),
            w.capacity() == cap,
            orig == old(buffer)@,
            cap == orig.len(),
            final(w.buffer)@ == fin,
            forall|j: int| w.written().len() <= j < cap ==> #[trigger] w.bytes()[j] == orig[j],
            failed ==> render(pieces@).len() > cap,
            !failed ==> !w.overflowed(),
            !failed ==> w.written() == render(pieces@.subrange(0, i as int)),
        decreases pieces@.len() - i,
    {
        let ghost prefix = pieces@.subrange(0, i + 1);
        let ghost before = w;
        proof {
            assert(prefix.drop_last() =~= pieces@.subrange(0, i as int));
            assert(prefix.last() == pieces@[i as int]);
        }
        let step = match pieces[i] {
            Piece::Text(s) => w.write_bytes(s.as_bytes()),
            Piece::Uint(n) => w.push_uint(n),
        };
        proof {
            assert forall|j: int| w.written().len() <= j < cap implies #[trigger] w.bytes()[j]
                == orig[j] by {
                assert(w.bytes()[j] == before.bytes()[j]);
            }
        }
        if step.is_err() {
            proof {
                lemma_render_append(
                    pieces@.subrange(0, i + 1),
                    pieces@.subrange(i + 1, pieces@.len() as int),
                );
                assert(pieces@.subrange(0, i + 1) + pieces@.subrange(i + 1, pieces@.len() as int)
                    =~= pieces@);
            }
            failed = true;
        }
        i = i + 1;
    }
    if failed {
        let whole: &'a [u8] = w.buffer;
        assert(whole@ == fin);
        return Err(FormatError::Overflow);
    }
    proof {
        assert(pieces@.subrange(0, i as int) =~= pieces@);
    }
    let used = w.used;
    let ghost written = w.written@;
    let whole: &'a [u8] = w.buffer;
    let prefix = slice_subrange(whole, 0, used);
    proof {
        assert(prefix@ =~= written);
    }
    match str_from_utf8(prefix) {
        Some(s) => Ok(s),
        None => Err(FormatError::Overflow),
    }
}

/// Formatting is deterministic: two successful renderings of one template,
/// into any two buffers, are the same text.
pub proof fn lemma_show_deterministic<'t>(pieces: Seq<Piece<'t>>, first: &str, second: &str)
    requires
        first.spec_bytes() == render(pieces),
        second.spec_bytes() == render(pieces),
    ensures
        first@ == second@,
{
    encode_utf8_decode_utf8(first@);
    encode_utf8_decode_utf8(second@);
}

} // verus!
