//! The multipart writer: owns a boundary token and the framing state of one
//! message, and appends delimiter lines, header blocks and the closing
//! delimiter to a caller supplied sink.
//!
//! Between `CreatePart` (or one of its convenience wrappers) and the next
//! framing call, the caller writes the part's body directly to the sink;
//! opening a new part or closing the message invalidates that arrangement
//! for the previous part. Nothing enforces this at run time — it is the
//! calling convention the multipart format imposes.

use vstd::prelude::*;
use vstd::utf8::encode_utf8;
use crate::boundary::{boundary_of, is_lower_hex, randomBoundary, valid_boundary};
use crate::order::{chars_lt, lemma_chars_lt_asymmetric, lemma_chars_lt_common_prefix};
use crate::escape::{escape_chars, escapeQuotes};
use crate::header::{
    crlf, header_add, header_block, lemma_header_block_take_step,
    lemma_lines_of_values_take_step, lines_of_values, PartHeader,
};
use crate::sink::{MultipartError, Sink};

verus! {

/// The two dashes of a delimiter line.
pub open spec fn dashes() -> Seq<char> {
    "--"@
}

/// A double quote.
pub open spec fn dquote() -> Seq<char> {
    "\""@
}

/// The delimiter line opening a part: `--<boundary>` and a line end, with a
/// leading line end before every part but the first, which nothing
/// precedes.
pub open spec fn opening_delimiter(b: Seq<char>, started: bool) -> Seq<char> {
    if started {
        crlf() + dashes() + b + crlf()
    } else {
        dashes() + b + crlf()
    }
}

/// Everything `CreatePart` emits: the opening delimiter line, the header
/// block, and the blank line ending it.
pub open spec fn part_prologue(
    b: Seq<char>,
    started: bool,
    m: Seq<(Seq<char>, Seq<Seq<char>>)>,
) -> Seq<char> {
    opening_delimiter(b, started) + header_block(m) + crlf()
}

/// The terminal delimiter line `Close` emits: `--<boundary>--` between line
/// ends.
pub open spec fn closing_delimiter(b: Seq<char>) -> Seq<char> {
    crlf() + dashes() + b + dashes() + crlf()
}

/// The `Content-Disposition` field name.
pub open spec fn disposition_key() -> Seq<char> {
    "Content-Disposition"@
}

/// The `Content-Type` field name.
pub open spec fn content_type_key() -> Seq<char> {
    "Content-Type"@
}

/// The fixed content type given to file fields.
pub open spec fn octet_stream() -> Seq<char> {
    "application/octet-stream"@
}

/// The opening of a form-data disposition value, up to the quoted name.
pub open spec fn disposition_prefix() -> Seq<char> {
    "form-data; name=\""@
}

/// What stands between the quoted name and the quoted file name.
pub open spec fn filename_middle() -> Seq<char> {
    "\"; filename=\""@
}

/// The single-entry header of a plain form field: its `Content-Disposition`
/// names the field, with quotes and backslashes in the name escaped.
pub open spec fn form_field_header(name: Seq<char>) -> Seq<(Seq<char>, Seq<Seq<char>>)> {
    seq![(disposition_key(), seq![disposition_prefix() + escape_chars(name) + dquote()])]
}

/// The two-entry header of a file field: the `Content-Disposition` names
/// the field and the file, both escaped, and the `Content-Type` is the
/// fixed octet-stream type.
pub open spec fn form_file_header(name: Seq<char>, filename: Seq<char>) -> Seq<
    (Seq<char>, Seq<Seq<char>>),
> {
    seq![
        (
            disposition_key(),
            seq![
                disposition_prefix() + escape_chars(name) + filename_middle() + escape_chars(
                    filename,
                ) + dquote(),
            ],
        ),
        (content_type_key(), seq![octet_stream()]),
    ]
}

/// `Content-Disposition` sorts strictly before `Content-Type`: the two
/// names share the prefix `Content-` and differ first at `D` against `T`.
proof fn lemma_disposition_before_type()
    ensures
        chars_lt(disposition_key(), content_type_key()),
{
    reveal_strlit("Content-Disposition");
    reveal_strlit("Content-Type");
    let a = disposition_key();
    let b = content_type_key();
    lemma_chars_lt_common_prefix(a, b, 8);
    assert(a.skip(8)[0] == 'D');
    assert(b.skip(8)[0] == 'T');
    assert(chars_lt(a.skip(8), b.skip(8)));
}

/// A character that the MIME token grammar does not allow bare, so a
/// boundary holding one must be quoted in a `Content-Type` value.
pub open spec fn is_tspecial(c: char) -> bool {
    c == '(' || c == ')' || c == '<' || c == '>' || c == '@' || c == ',' || c == ';' || c == ':'
        || c == '"' || c == '/' || c == '[' || c == ']' || c == '?' || c == '='
}

/// Whether a boundary must be quoted: it holds at least one character the
/// token grammar refuses.
pub open spec fn needs_quoting(b: Seq<char>) -> bool {
    exists|i: int| 0 <= i < b.len() && is_tspecial(#[trigger] b[i])
}

/// The `Content-Type` value for a form submission with the given boundary,
/// quoted exactly when the boundary needs quoting.
pub open spec fn content_type_of(b: Seq<char>) -> Seq<char> {
    if needs_quoting(b) {
        "multipart/form-data; boundary="@ + dquote() + b + dquote()
    } else {
        "multipart/form-data; boundary="@ + b
    }
}

/// The `Content-Type` value carries the boundary quoted if and only if the
/// boundary holds a character the token grammar refuses: with such a
/// character the value is two quote characters longer than the bare form,
/// and without one it is exactly the bare form.
pub proof fn lemma_content_type_quoted_iff(b: Seq<char>)
    ensures
        (content_type_of(b) == "multipart/form-data; boundary="@ + b) <==> !needs_quoting(b),
{
    reveal_strlit("\"");
    if needs_quoting(b) {
        assert(content_type_of(b).len() == "multipart/form-data; boundary="@.len() + b.len() + 2);
        assert(("multipart/form-data; boundary="@ + b).len() == "multipart/form-data; boundary="@.len() + b.len());
    }
}

fn is_tspecial_exec(c: char) -> (r: bool)
    ensures
        r == is_tspecial(c),
{
    c == '(' || c == ')' || c == '<' || c == '>' || c == '@' || c == ',' || c == ';' || c == ':'
        || c == '"' || c == '/' || c == '[' || c == ']' || c == '?' || c == '='
}

fn contains_tspecial(s: &str) -> (r: bool)
    ensures
        r == needs_quoting(s@),
{
    let len = s.unicode_len();
    let mut i: usize = 0;
    while i < len
        invariant
            0 <= i <= len,
            len == s@.len(),
            forall|k: int| 0 <= k < i ==> !is_tspecial(#[trigger] s@[k]),
        decreases len - i,
    {
        if is_tspecial_exec(s.get_char(i)) {
            return true;
        }
        i += 1;
    }
    false
}

/// A generator of one multipart message: a boundary token, whether a part
/// has been opened yet (which decides the delimiter variant), and whether
/// the message has been closed (after which every operation fails).
pub struct Writer {
    boundary: String,
    started: bool,
    closed: bool,
}

impl Writer {
    /// The boundary token, fixed for the writer's lifetime.
    pub closed spec fn boundary_chars(&self) -> Seq<char> {
        self.boundary@
    }

    /// Whether a part has been opened since construction.
    pub closed spec fn is_started(&self) -> bool {
        self.started
    }

    /// Whether the message has been closed.
    pub closed spec fn is_closed(&self) -> bool {
        self.closed
    }

    /// The boundary is a usable token.
    pub open spec fn wf(&self) -> bool {
        valid_boundary(self.boundary_chars())
    }

    /// Returns a new writer with a fresh random boundary, open and with no
    /// part written yet. The boundary is the token `randomBoundary` makes:
    /// the lowercase hexadecimal rendering of a 30-byte random block
    /// followed by the fixed suffix `xx` — only the byte values are left
    /// open.
    pub fn new() -> (w: Writer)
        ensures
            w.wf(),
            !w.is_started(),
            !w.is_closed(),
            w.boundary_chars().len() == 62,
            exists|bs: Seq<u8>| bs.len() == 30 && w.boundary_chars() == boundary_of(bs),
            forall|i: int| 0 <= i < 60 ==> is_lower_hex(#[trigger] w.boundary_chars()[i]),
            w.boundary_chars()[60] == 'x' && w.boundary_chars()[61] == 'x',
    {
        let b = randomBoundary();
        let ghost bv = b@;
        let w = Writer { boundary: b, started: false, closed: false };
        proof {
            let bs = choose|bs: Seq<u8>| bs.len() == 30 && bv == boundary_of(bs);
            assert(bs.len() == 30 && w.boundary_chars() == boundary_of(bs));
        }
        w
    }

    /// Returns a writer with the given boundary, or `None` if the token is
    /// unusable: empty, longer than 70 characters, or holding anything but
    /// printable ASCII.
    pub fn with_boundary(boundary: String) -> (r: Option<Writer>)
        ensures
            r is Some <==> valid_boundary(boundary@),
            r is Some ==> r->0.wf() && r->0.boundary_chars() == boundary@ && !r->0.is_started()
                && !r->0.is_closed(),
    {
        let len = boundary.as_str().unicode_len();
        if len == 0 || len > 70 {
            return None;
        }
        let mut i: usize = 0;
        while i < len
            invariant
                0 <= i <= len,
                len == boundary@.len(),
                0 < len <= 70,
                forall|k: int| 0 <= k < i ==> '!' <= #[trigger] boundary@[k] <= '~',
            decreases len - i,
        {
            let c = boundary.as_str().get_char(i);
            if c < '!' || c > '~' {
                return None;
            }
            i += 1;
        }
        Some(Writer { boundary, started: false, closed: false })
    }

    /// Returns the writer's boundary token.
    pub fn Boundary(&self) -> (r: &str)
        ensures
            r@ == self.boundary_chars(),
    {
        self.boundary.as_str()
    }

    /// Returns the `Content-Type` value announcing this writer's message as
    /// an HTTP form submission, quoting the boundary if and only if it
    /// holds a character the token grammar refuses.
    pub fn FormDataContentType(&self) -> (r: String)
        ensures
            r@ == content_type_of(self.boundary_chars()),
    {
        let mut out = String::from_str("multipart/form-data; boundary=");
        if contains_tspecial(self.boundary.as_str()) {
            out.append("\"");
            out.append(self.boundary.as_str());
            out.append("\"");
            proof {
                assert(out@ =~= content_type_of(self.boundary_chars()));
            }
        } else {
            out.append(self.boundary.as_str());
            proof {
                assert(out@ =~= content_type_of(self.boundary_chars()));
            }
        }
        out
    }

    /// Opens a new part: emits the boundary delimiter line — with a leading
    /// line end for every part after the first, since nothing precedes the
    /// first — then the header block and the blank line ending it. Fails
    /// with `WriterClosed`, emitting nothing, once the writer is closed; a
    /// refused sink write surfaces as `SinkWriteFailed` with at most a
    /// truncated prologue left in the sink. On success the caller writes
    /// the part's body directly to `sink`.
    pub fn CreatePart<W: Sink>(&mut self, sink: &mut W, header: &PartHeader) -> (r: Result<
        (),
        MultipartError,
    >)
        requires
            old(self).wf(),
            header.wf(),
        ensures
            final(self).wf(),
            final(self).boundary_chars() == old(self).boundary_chars(),
            old(self).is_closed() ==> r == Err::<(), MultipartError>(MultipartError::WriterClosed)
                && *final(self) == *old(self) && final(sink).data() == old(sink).data(),
            !old(self).is_closed() ==> !final(self).is_closed() && final(self).is_started() && ({
                let block = encode_utf8(
                    part_prologue(old(self).boundary_chars(), old(self).is_started(), header@),
                );
                &&& (r is Ok ==> final(sink).data() == old(sink).data() + block)
                &&& (r is Err ==> r == Err::<(), MultipartError>(MultipartError::SinkWriteFailed)
                    && exists|p: int|
                    0 <= p <= block.len() && final(sink).data() == old(sink).data()
                        + block.subrange(0, p))
            }),
    {
        if self.closed {
            return Err(MultipartError::WriterClosed);
        }
        let block = self.build_prologue(header);
        self.started = true;
        let bytes = block.as_str().as_bytes_vec();
        let ghost sblock = encode_utf8(
            part_prologue(old(self).boundary_chars(), old(self).is_started(), header@),
        );
        proof {
            assert(bytes@ == sblock);
        }
        let buf = bytes.as_slice();
        match sink.write(buf) {
            Ok(()) => Ok(()),
            Err(err) => {
                proof {
                    let p = choose|p: int|
                        0 <= p <= buf@.len() && sink.data() == old(sink).data() + buf@.subrange(
                            0,
                            p,
                        );
                    assert(buf@.subrange(0, p) == sblock.subrange(0, p));
                    assert(0 <= p <= sblock.len() && sink.data() == old(sink).data()
                        + sblock.subrange(0, p));
                }
                Err(err)
            },
        }
    }

    /// Assembles the delimiter line, header block and terminating blank
    /// line that open one part.
    fn build_prologue(&self, header: &PartHeader) -> (r: String)
        ensures
            r@ == part_prologue(self.boundary_chars(), self.is_started(), header@),
    {
        let ghost bnd = self.boundary@;
        let ghost st = self.started;
        let ghost hv = header@;
        let mut block = String::new();
        if self.started {
            block.append("\r\n");
            block.append("--");
        } else {
            block.append("--");
        }
        block.append(self.boundary.as_str());
        block.append("\r\n");
        proof {
            assert(block@ =~= opening_delimiter(bnd, st));
        }
        let n = header.num_entries();
        let mut e: usize = 0;
        while e < n
            invariant
                0 <= e <= n,
                n == hv.len(),
                hv == header@,
                bnd == self.boundary@,
                st == self.started,
                block@ == opening_delimiter(bnd, st) + header_block(hv.take(e as int)),
            decreases n - e,
        {
            let nv = header.num_values(e);
            let mut v: usize = 0;
            while v < nv
                invariant
                    0 <= v <= nv,
                    0 <= e < n,
                    n == hv.len(),
                    nv == hv[e as int].1.len(),
                    hv == header@,
                    block@ == opening_delimiter(bnd, st) + header_block(hv.take(e as int))
                        + lines_of_values(hv[e as int].0, hv[e as int].1.take(v as int)),
                decreases nv - v,
            {
                block.append(header.name_at(e).as_str());
                block.append(": ");
                block.append(header.value_at(e, v).as_str());
                block.append("\r\n");
                proof {
                    lemma_lines_of_values_take_step(hv[e as int].0, hv[e as int].1, v as int);
                    assert(block@ =~= opening_delimiter(bnd, st) + header_block(
                        hv.take(e as int),
                    ) + lines_of_values(hv[e as int].0, hv[e as int].1.take(v as int + 1)));
                }
                v += 1;
            }
            proof {
                assert(hv[e as int].1.take(nv as int) =~= hv[e as int].1);
                lemma_header_block_take_step(hv, e as int);
                assert(block@ =~= opening_delimiter(bnd, st) + header_block(
                    hv.take(e as int + 1),
                ));
            }
            e += 1;
        }
        block.append("\r\n");
        proof {
            assert(hv.take(n as int) =~= hv);
            assert(block@ =~= part_prologue(bnd, st, hv));
        }
        block
    }

    /// Finishes the message: emits the terminal delimiter line and leaves
    /// the writer closed, so that every further operation fails. Fails with
    /// `WriterClosed`, emitting nothing, if the message was already closed;
    /// a refused sink write surfaces as `SinkWriteFailed`, and the writer
    /// stays closed nevertheless — the attempt is not retried.
    pub fn Close<W: Sink>(&mut self, sink: &mut W) -> (r: Result<(), MultipartError>)
        requires
            old(self).wf(),
        ensures
            final(self).wf(),
            final(self).boundary_chars() == old(self).boundary_chars(),
            old(self).is_closed() ==> r == Err::<(), MultipartError>(MultipartError::WriterClosed)
                && *final(self) == *old(self) && final(sink).data() == old(sink).data(),
            !old(self).is_closed() ==> final(self).is_closed() && ({
                let block = encode_utf8(closing_delimiter(old(self).boundary_chars()));
                &&& (r is Ok ==> final(sink).data() == old(sink).data() + block)
                &&& (r is Err ==> r == Err::<(), MultipartError>(MultipartError::SinkWriteFailed)
                    && exists|p: int|
                    0 <= p <= block.len() && final(sink).data() == old(sink).data()
                        + block.subrange(0, p))
            }),
    {
        if self.closed {
            return Err(MultipartError::WriterClosed);
        }
        self.closed = true;
        let mut block = String::new();
        block.append("\r\n");
        block.append("--");
        block.append(self.boundary.as_str());
        block.append("--");
        block.append("\r\n");
        proof {
            assert(block@ =~= closing_delimiter(self.boundary@));
        }
        let bytes = block.as_str().as_bytes_vec();
        let ghost sblock = encode_utf8(closing_delimiter(old(self).boundary_chars()));
        proof {
            assert(bytes@ == sblock);
        }
        let buf = bytes.as_slice();
        match sink.write(buf) {
            Ok(()) => Ok(()),
            Err(err) => {
                proof {
                    let p = choose|p: int|
                        0 <= p <= buf@.len() && sink.data() == old(sink).data() + buf@.subrange(
                            0,
                            p,
                        );
                    assert(buf@.subrange(0, p) == sblock.subrange(0, p));
                    assert(0 <= p <= sblock.len() && sink.data() == old(sink).data()
                        + sblock.subrange(0, p));
                }
                Err(err)
            },
        }
    }

    /// Opens a file field: a part whose `Content-Disposition` names the
    /// field and the file — quotes and backslashes in both escaped — and
    /// whose `Content-Type` is `application/octet-stream`. On success the
    /// caller writes the file's bytes directly to `sink`.
    pub fn CreateFormFile<W: Sink>(
        &mut self,
        sink: &mut W,
        fieldname: &str,
        filename: &str,
    ) -> (r: Result<(), MultipartError>)
        requires
            old(self).wf(),
        ensures
            final(self).wf(),
            final(self).boundary_chars() == old(self).boundary_chars(),
            old(self).is_closed() ==> r == Err::<(), MultipartError>(MultipartError::WriterClosed)
                && *final(self) == *old(self) && final(sink).data() == old(sink).data(),
            !old(self).is_closed() ==> !final(self).is_closed() && final(self).is_started() && ({
                let block = encode_utf8(
                    part_prologue(
                        old(self).boundary_chars(),
                        old(self).is_started(),
                        form_file_header(fieldname@, filename@),
                    ),
                );
                &&& (r is Ok ==> final(sink).data() == old(sink).data() + block)
                &&& (r is Err ==> r == Err::<(), MultipartError>(MultipartError::SinkWriteFailed)
                    && exists|p: int|
                    0 <= p <= block.len() && final(sink).data() == old(sink).data()
                        + block.subrange(0, p))
            }),
    {
        let mut h = PartHeader::new();
        let mut dv = String::from_str("form-data; name=\"");
        let en = escapeQuotes(fieldname);
        dv.append(en.as_str());
        dv.append("\"; filename=\"");
        let ef = escapeQuotes(filename);
        dv.append(ef.as_str());
        dv.append("\"");
        h.append_value("Content-Disposition", dv.as_str());
        h.append_value("Content-Type", "application/octet-stream");
        proof {
            lemma_disposition_before_type();
            lemma_chars_lt_asymmetric(disposition_key(), content_type_key());
            let m0 = Seq::<(Seq<char>, Seq<Seq<char>>)>::empty();
            let m1 = header_add(m0, disposition_key(), dv@);
            assert(m1 =~= seq![(disposition_key(), seq![dv@])]);
            assert(m1.drop_first() =~= m0);
            let m2 = header_add(m1, content_type_key(), octet_stream());
            assert(m2 =~= seq![m1[0]] + header_add(m0, content_type_key(), octet_stream()));
            assert(h@ == m2);
            assert(dv@ == disposition_prefix() + escape_chars(fieldname@) + filename_middle()
                + escape_chars(filename@) + dquote());
            assert(h@ =~= form_file_header(fieldname@, filename@));
        }
        self.CreatePart(sink, &h)
    }

    /// Opens a plain form field: a part whose single `Content-Disposition`
    /// header names the field, with quotes and backslashes escaped. On
    /// success the caller writes the field's value directly to `sink`.
    pub fn CreateFormField<W: Sink>(&mut self, sink: &mut W, fieldname: &str) -> (r: Result<
        (),
        MultipartError,
    >)
        requires
            old(self).wf(),
        ensures
            final(self).wf(),
            final(self).boundary_chars() == old(self).boundary_chars(),
            old(self).is_closed() ==> r == Err::<(), MultipartError>(MultipartError::WriterClosed)
                && *final(self) == *old(self) && final(sink).data() == old(sink).data(),
            !old(self).is_closed() ==> !final(self).is_closed() && final(self).is_started() && ({
                let block = encode_utf8(
                    part_prologue(
                        old(self).boundary_chars(),
                        old(self).is_started(),
                        form_field_header(fieldname@),
                    ),
                );
                &&& (r is Ok ==> final(sink).data() == old(sink).data() + block)
                &&& (r is Err ==> r == Err::<(), MultipartError>(MultipartError::SinkWriteFailed)
                    && exists|p: int|
                    0 <= p <= block.len() && final(sink).data() == old(sink).data()
                        + block.subrange(0, p))
            }),
    {
        let mut h = PartHeader::new();
        let mut dv = String::from_str("form-data; name=\"");
        let en = escapeQuotes(fieldname);
        dv.append(en.as_str());
        dv.append("\"");
        h.append_value("Content-Disposition", dv.as_str());
        proof {
            let m0 = Seq::<(Seq<char>, Seq<Seq<char>>)>::empty();
            assert(h@ == header_add(m0, disposition_key(), dv@));
            assert(dv@ == disposition_prefix() + escape_chars(fieldname@) + dquote());
            assert(h@ =~= form_field_header(fieldname@));
        }
        self.CreatePart(sink, &h)
    }

    /// Writes a whole form field: opens it with `CreateFormField` and
    /// appends the value's bytes as the part's body, succeeding only if
    /// both steps do.
    pub fn WriteField<W: Sink>(&mut self, sink: &mut W, fieldname: &str, value: &str) -> (r:
        Result<(), MultipartError>)
        requires
            old(self).wf(),
        ensures
            final(self).wf(),
            final(self).boundary_chars() == old(self).boundary_chars(),
            old(self).is_closed() ==> r == Err::<(), MultipartError>(MultipartError::WriterClosed)
                && *final(self) == *old(self) && final(sink).data() == old(sink).data(),
            !old(self).is_closed() ==> !final(self).is_closed() && final(self).is_started() && ({
                let full = encode_utf8(
                    part_prologue(
                        old(self).boundary_chars(),
                        old(self).is_started(),
                        form_field_header(fieldname@),
                    ),
                ) + encode_utf8(value@);
                &&& (r is Ok ==> final(sink).data() == old(sink).data() + full)
                &&& (r is Err ==> r == Err::<(), MultipartError>(MultipartError::SinkWriteFailed)
                    && exists|p: int|
                    0 <= p <= full.len() && final(sink).data() == old(sink).data() + full.subrange(
                        0,
                        p,
                    ))
            }),
    {
        let ghost prologue = encode_utf8(
            part_prologue(
                old(self).boundary_chars(),
                old(self).is_started(),
                form_field_header(fieldname@),
            ),
        );
        let ghost full = prologue + encode_utf8(value@);
        match self.CreateFormField(sink, fieldname) {
            Err(err) => {
                proof {
                    if !old(self).is_closed() {
                        let p = choose|p: int|
                            0 <= p <= prologue.len() && sink.data() == old(sink).data()
                                + prologue.subrange(0, p);
                        assert(prologue.subrange(0, p) =~= full.subrange(0, p));
                        assert(0 <= p <= full.len() && sink.data() == old(sink).data()
                            + full.subrange(0, p));
                    }
                }
                return Err(err);
            },
            Ok(()) => {},
        }
        let ghost mid = sink.data();
        let bytes = value.as_bytes_vec();
        let buf = bytes.as_slice();
        match sink.write(buf) {
            Ok(()) => {
                proof {
                    assert(old(sink).data() + prologue + encode_utf8(value@) =~= old(
                        sink,
                    ).data() + full);
                }
                Ok(())
            },
            Err(err) => {
                proof {
                    let p = choose|p: int|
                        0 <= p <= buf@.len() && sink.data() == mid + buf@.subrange(0, p);
                    assert(full.subrange(0, prologue.len() + p) =~= prologue + buf@.subrange(
                        0,
                        p,
                    ));
                    assert(old(sink).data() + (prologue + buf@.subrange(0, p)) =~= (old(
                        sink,
                    ).data() + prologue) + buf@.subrange(0, p));
                    assert(0 <= prologue.len() + p <= full.len() && sink.data() == old(
                        sink,
                    ).data() + full.subrange(0, prologue.len() + p));
                }
                Err(err)
            },
        }
    }
}

/// A closed writer stays closed and writes nothing: whether the first
/// `Close` succeeded or failed, every further `Close`, `CreatePart` and
/// `WriteField` returns `WriterClosed` and hands the sink back with not one
/// byte added. The body is checked against the operations' contracts alone,
/// so the property holds of every writer and every sink.
pub fn closed_writer_rejects_all<W: Sink>(w: &mut Writer, sink: &mut W)
    requires
        old(w).wf(),
        !old(w).is_closed(),
    ensures
        final(w).is_closed(),
{
    let _ = w.Close(sink);
    let ghost flushed = sink.data();
    let r2 = w.Close(sink);
    assert(r2 == Err::<(), MultipartError>(MultipartError::WriterClosed));
    assert(sink.data() == flushed);
    let h = PartHeader::new();
    let r3 = w.CreatePart(sink, &h);
    assert(r3 == Err::<(), MultipartError>(MultipartError::WriterClosed));
    assert(sink.data() == flushed);
    let r4 = w.WriteField(sink, "a", "b");
    assert(r4 == Err::<(), MultipartError>(MultipartError::WriterClosed));
    assert(sink.data() == flushed);
}

} // verus!
