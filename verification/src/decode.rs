//! The streaming multipart decoder.
//!
//! A form body arrives part by part, each part as a header set followed by a
//! sequence of byte chunks. The [`Decoder`] is driven by the code that reads
//! the transport: it admits each part against the part-count cap, classifies
//! it as text or file, accounts every chunk against the matching byte budget
//! before the chunk is accepted, and accumulates the ordered field list.
//! Text bytes are buffered and decoded as UTF-8 in here; file bytes are
//! written by the caller to a backing store whose handle is handed over when
//! the part ends. The first failure aborts the whole decode: no partial
//! field list is ever produced.
//!
//! [`decode_spec`] is the mathematical model of the whole operation, and
//! [`decode`] runs it in one call over fully materialized parts.

use crate::config::MultipartLoadConfig;
use crate::errors::DecodeError;
use crate::field::{FieldModel, FileModel, MultipartField, MultipartFile, MultipartText, Multiparts,
    TextModel};
use crate::text;
use crate::text::utf8_valid_prefix_len;
use vstd::prelude::*;
use vstd::string::StringExecFns;
use vstd::utf8::decode_utf8;
use vstd::utf8::decode_utf8_encode_utf8;
use vstd::utf8::encode_utf8;
use vstd::utf8::valid_utf8;

verus! {

/// The headers of one arriving part, reduced to the plain values the
/// decoder reads.
pub struct PartHeaders {
    /// True when the Content-Disposition type is `form-data`.
    pub form_data: bool,
    /// The field name from the Content-Disposition header, if present.
    pub name: Option<String>,
    /// The filename from the Content-Disposition header, if present.
    pub filename: Option<String>,
    /// The value of the Content-Type header, or `None` when the header is
    /// absent.
    pub content_type: Option<String>,
}

/// The ghost description of a part's headers.
pub ghost struct HeadersModel {
    pub form_data: bool,
    pub name: Option<Seq<char>>,
    pub filename: Option<Seq<char>>,
    pub content_type: Option<Seq<char>>,
}

impl View for PartHeaders {
    type V = HeadersModel;

    open spec fn view(&self) -> HeadersModel {
        HeadersModel {
            form_data: self.form_data,
            name: self.name.deep_view(),
            filename: self.filename.deep_view(),
            content_type: self.content_type.deep_view(),
        }
    }
}

impl DeepView for PartHeaders {
    type V = HeadersModel;

    open spec fn deep_view(&self) -> HeadersModel {
        self.view()
    }
}

/// The content type a part is treated as having: the declared one, or
/// `text/plain` when the header is absent.
pub open spec fn effective_content_type(h: HeadersModel) -> Seq<char> {
    match h.content_type {
        Some(ct) => ct,
        None => "text/plain"@,
    }
}

/// The ghost outcome of classifying one part's headers.
pub ghost enum ClassModel {
    Text { name: Seq<char> },
    File { name: Seq<char>, filename: Option<Seq<char>>, mime: Seq<char> },
}

/// How one part is handled, decided from its headers alone: a part is text
/// exactly when its effective content type is `text/plain` and it carries no
/// filename; it must have a form-data disposition and a field name, or it
/// classifies as nothing.
pub open spec fn classify_spec(h: HeadersModel) -> Option<ClassModel> {
    if !h.form_data || h.name is None {
        None
    } else if effective_content_type(h) == "text/plain"@ && h.filename is None {
        Some(ClassModel::Text { name: h.name.unwrap() })
    } else {
        Some(
            ClassModel::File {
                name: h.name.unwrap(),
                filename: h.filename,
                mime: effective_content_type(h),
            },
        )
    }
}

/// The classification of one part.
#[derive(Debug)]
pub enum Classification {
    /// A text part with the given field name.
    Text { name: String },
    /// A file part with its field name, optional client filename, and
    /// effective content type.
    File { name: String, filename: Option<String>, mime: String },
}

impl View for Classification {
    type V = ClassModel;

    open spec fn view(&self) -> ClassModel {
        match self {
            Classification::Text { name } => ClassModel::Text { name: name@ },
            Classification::File { name, filename, mime } => ClassModel::File {
                name: name@,
                filename: filename.deep_view(),
                mime: mime@,
            },
        }
    }
}

/// Classifies one part from its headers: the part's field name together
/// with the text-or-file decision, or a header error when the disposition
/// is not form-data or no field name is present.
pub fn classify_part(h: &PartHeaders) -> (r: Result<Classification, DecodeError>)
    ensures
        match r {
            Ok(c) => classify_spec(h@) == Some(c@),
            Err(e) => e == DecodeError::HeaderError && classify_spec(h@) is None,
        },
{
    if !h.form_data {
        return Err(DecodeError::HeaderError);
    }
    let name = match &h.name {
        Some(n) => n.clone(),
        None => { return Err(DecodeError::HeaderError) },
    };
    let text_plain = String::from_str("text/plain");
    let is_text = h.filename.is_none() && (match &h.content_type {
        Some(ct) => *ct == text_plain,
        None => true,
    });
    if is_text {
        Ok(Classification::Text { name })
    } else {
        let filename = match &h.filename {
            Some(f) => Some(f.clone()),
            None => None,
        };
        let mime = match &h.content_type {
            Some(ct) => ct.clone(),
            None => text_plain,
        };
        Ok(Classification::File { name, filename, mime })
    }
}

/// Tells the driving code what the decoder expects next for the current
/// part: text chunks fed to the decoder itself, or file chunks written to a
/// backing store after their length is accepted.
#[derive(Debug, Clone, Copy, PartialEq, Eq, Structural)]
pub enum PartKind {
    Text,
    File,
}

// The part currently being accumulated, if any.
enum Pending {
    Idle,
    Text { name: String, buf: Vec<u8> },
    File { name: String, filename: Option<String>, mime: String, written: u64 },
}

/// The ghost description of the part currently being accumulated.
pub ghost enum PendingModel {
    Idle,
    Text { name: Seq<char>, buf: Seq<u8> },
    File { name: Seq<char>, filename: Option<Seq<char>>, mime: Seq<char>, written: u64 },
}

impl PendingModel {
    /// The field name of a pending text part.
    pub open spec fn text_name(self) -> Seq<char>
        recommends
            self is Text,
    {
        match self {
            PendingModel::Text { name, .. } => name,
            _ => Seq::empty(),
        }
    }

    /// The bytes accumulated so far for a pending text part.
    pub open spec fn text_buf(self) -> Seq<u8>
        recommends
            self is Text,
    {
        match self {
            PendingModel::Text { buf, .. } => buf,
            _ => Seq::empty(),
        }
    }

    /// The field name of a pending file part.
    pub open spec fn file_name(self) -> Seq<char>
        recommends
            self is File,
    {
        match self {
            PendingModel::File { name, .. } => name,
            _ => Seq::empty(),
        }
    }

    /// The client filename of a pending file part.
    pub open spec fn file_filename(self) -> Option<Seq<char>>
        recommends
            self is File,
    {
        match self {
            PendingModel::File { filename, .. } => filename,
            _ => None,
        }
    }

    /// The content type of a pending file part.
    pub open spec fn file_mime(self) -> Seq<char>
        recommends
            self is File,
    {
        match self {
            PendingModel::File { mime, .. } => mime,
            _ => Seq::empty(),
        }
    }

    /// The bytes accepted so far for a pending file part.
    pub open spec fn file_written(self) -> u64
        recommends
            self is File,
    {
        match self {
            PendingModel::File { written, .. } => written,
            _ => 0,
        }
    }
}

impl View for Pending {
    type V = PendingModel;

    closed spec fn view(&self) -> PendingModel {
        match self {
            Pending::Idle => PendingModel::Idle,
            Pending::Text { name, buf } => PendingModel::Text { name: name@, buf: buf@ },
            Pending::File { name, filename, mime, written } => PendingModel::File {
                name: name@,
                filename: filename.deep_view(),
                mime: mime@,
                written: *written,
            },
        }
    }
}

/// The bytes a field holds against the text budget: the UTF-8 encoding of a
/// text field's value, and nothing for a file field.
pub open spec fn field_text_bytes(f: FieldModel) -> int {
    match f {
        FieldModel::Text(t) => encode_utf8(t.text).len() as int,
        FieldModel::File(_) => 0,
    }
}

/// The bytes a field holds against the file budget.
pub open spec fn field_file_bytes(f: FieldModel) -> int {
    match f {
        FieldModel::File(fl) => fl.size as int,
        FieldModel::Text(_) => 0,
    }
}

/// The total bytes a field list holds against the text budget.
pub open spec fn total_text_bytes(s: Seq<FieldModel>) -> int
    decreases s.len(),
{
    if s.len() == 0 {
        0
    } else {
        total_text_bytes(s.drop_last()) + field_text_bytes(s.last())
    }
}

/// The total bytes a field list holds against the file budget.
pub open spec fn total_file_bytes(s: Seq<FieldModel>) -> int
    decreases s.len(),
{
    if s.len() == 0 {
        0
    } else {
        total_file_bytes(s.drop_last()) + field_file_bytes(s.last())
    }
}

// Accounted byte totals are never negative.
proof fn lemma_totals_nonneg(s: Seq<FieldModel>)
    ensures
        total_text_bytes(s) >= 0,
        total_file_bytes(s) >= 0,
    decreases s.len(),
{
    if s.len() > 0 {
        lemma_totals_nonneg(s.drop_last());
    }
}

/// Bytes held by the pending part against the text budget.
pub open spec fn pending_text_bytes(p: PendingModel) -> int {
    match p {
        PendingModel::Text { buf, .. } => buf.len() as int,
        _ => 0,
    }
}

/// Bytes held by the pending part against the file budget.
pub open spec fn pending_file_bytes(p: PendingModel) -> int {
    match p {
        PendingModel::File { written, .. } => written as int,
        _ => 0,
    }
}

/// Parts held by the pending part against the part-count cap.
pub open spec fn pending_parts(p: PendingModel) -> int {
    if p is Idle {
        0
    } else {
        1
    }
}

/// One in-flight decode operation: the configuration it was started with,
/// the fields accumulated so far, the remaining byte budgets, and the part
/// currently being read. Exactly one part is in flight at a time, and the
/// budgets are owned by this one decode alone.
pub struct Decoder<F> {
    config: MultipartLoadConfig,
    fields: Vec<MultipartField<F>>,
    text_remaining: usize,
    file_remaining: u64,
    pending: Pending,
}

impl<F> Decoder<F> {
    /// The configuration this decode was started with.
    pub closed spec fn spec_config(&self) -> MultipartLoadConfig {
        self.config
    }

    /// The fields accumulated so far, in arrival order.
    pub closed spec fn fields_model(&self) -> Seq<FieldModel> {
        self.fields.deep_view()
    }

    /// The text budget still available.
    pub closed spec fn spec_text_remaining(&self) -> usize {
        self.text_remaining
    }

    /// The file budget still available.
    pub closed spec fn spec_file_remaining(&self) -> u64 {
        self.file_remaining
    }

    /// The part currently being accumulated.
    pub closed spec fn pending_model(&self) -> PendingModel {
        self.pending@
    }

    /// The decoder's invariant: every byte ever accepted is accounted
    /// against its budget, so the bytes held by finished fields and the
    /// pending part never exceed the configured limits; likewise the parts
    /// admitted never exceed the part-count cap.
    pub open spec fn wf(&self) -> bool {
        &&& self.spec_text_remaining() + pending_text_bytes(self.pending_model())
            + total_text_bytes(self.fields_model()) == self.spec_config().spec_text_limit()
        &&& self.spec_file_remaining() + pending_file_bytes(self.pending_model())
            + total_file_bytes(self.fields_model()) == self.spec_config().spec_file_limit()
        &&& self.fields_model().len() + pending_parts(self.pending_model())
            <= self.spec_config().spec_max_parts()
    }

    /// Starts a decode with the full budgets of `config` and no fields.
    pub fn new(config: MultipartLoadConfig) -> (d: Decoder<F>)
        ensures
            d.wf(),
            d.spec_config() == config,
            d.fields_model() == Seq::<FieldModel>::empty(),
            d.spec_text_remaining() == config.spec_text_limit(),
            d.spec_file_remaining() == config.spec_file_limit(),
            d.pending_model() is Idle,
    {
        let text_remaining = config.get_text_limit();
        let file_remaining = config.get_file_limit();
        Decoder {
            config,
            fields: Vec::new(),
            text_remaining,
            file_remaining,
            pending: Pending::Idle,
        }
    }

    /// Admits one arriving part: fails if the part-count cap is already
    /// reached, classifies the headers, and otherwise starts accumulating a
    /// text or file part, telling the caller which. Budgets and finished
    /// fields are untouched; on failure the decoder is unchanged.
    pub fn begin_part(&mut self, headers: &PartHeaders) -> (r: Result<PartKind, DecodeError>)
        requires
            old(self).wf(),
            old(self).pending_model() is Idle,
        ensures
            final(self).wf(),
            final(self).spec_config() == old(self).spec_config(),
            final(self).fields_model() == old(self).fields_model(),
            final(self).spec_text_remaining() == old(self).spec_text_remaining(),
            final(self).spec_file_remaining() == old(self).spec_file_remaining(),
            if old(self).fields_model().len() >= old(self).spec_config().spec_max_parts() {
                &&& r == Err::<PartKind, DecodeError>(DecodeError::PartCountExceeded)
                &&& final(self).pending_model() is Idle
            } else {
                match classify_spec(headers@) {
                    None => {
                        &&& r == Err::<PartKind, DecodeError>(DecodeError::HeaderError)
                        &&& final(self).pending_model() is Idle
                    },
                    Some(ClassModel::Text { name }) => {
                        &&& r == Ok::<PartKind, DecodeError>(PartKind::Text)
                        &&& final(self).pending_model() == (PendingModel::Text {
                            name,
                            buf: Seq::<u8>::empty(),
                        })
                    },
                    Some(ClassModel::File { name, filename, mime }) => {
                        &&& r == Ok::<PartKind, DecodeError>(PartKind::File)
                        &&& final(self).pending_model() == (PendingModel::File {
                            name,
                            filename,
                            mime,
                            written: 0u64,
                        })
                    },
                }
            },
    {
        if self.fields.len() >= self.config.get_max_parts() {
            return Err(DecodeError::PartCountExceeded);
        }
        match classify_part(headers)? {
            Classification::Text { name } => {
                self.pending = Pending::Text { name, buf: Vec::new() };
                Ok(PartKind::Text)
            },
            Classification::File { name, filename, mime } => {
                self.pending = Pending::File { name, filename, mime, written: 0 };
                Ok(PartKind::File)
            },
        }
    }

    /// Accepts one chunk of a text part: the chunk is checked against the
    /// remaining text budget before it is buffered, and a chunk that does
    /// not fit fails the decode with the budget untouched.
    pub fn text_chunk(&mut self, chunk: &[u8]) -> (r: Result<(), DecodeError>)
        requires
            old(self).wf(),
            old(self).pending_model() is Text,
        ensures
            final(self).wf(),
            final(self).spec_config() == old(self).spec_config(),
            final(self).fields_model() == old(self).fields_model(),
            final(self).spec_file_remaining() == old(self).spec_file_remaining(),
            if chunk@.len() > old(self).spec_text_remaining() {
                &&& r == Err::<(), DecodeError>(DecodeError::TextBudgetExceeded)
                &&& *final(self) == *old(self)
            } else {
                &&& r == Ok::<(), DecodeError>(())
                &&& final(self).spec_text_remaining() == old(self).spec_text_remaining()
                    - chunk@.len()
                &&& final(self).pending_model() == (PendingModel::Text {
                    name: old(self).pending_model().text_name(),
                    buf: old(self).pending_model().text_buf() + chunk@,
                })
            },
    {
        let len = chunk.len();
        if len > self.text_remaining {
            return Err(DecodeError::TextBudgetExceeded);
        }
        match &mut self.pending {
            Pending::Text { buf, .. } => {
                let mut k: usize = 0;
                let ghost buf0 = buf@;
                while k < chunk.len()
                    invariant
                        k <= chunk@.len(),
                        buf@ == buf0 + chunk@.subrange(0, k as int),
                    decreases chunk@.len() - k,
                {
                    buf.push(chunk[k]);
                    proof {
                        assert(buf0 + chunk@.subrange(0, k as int + 1) =~= (buf0 + chunk@.subrange(
                            0,
                            k as int,
                        )).push(chunk@[k as int]));
                    }
                    k = k + 1;
                }
                proof {
                    assert(chunk@.subrange(0, chunk@.len() as int) =~= chunk@);
                }
            },
            _ => (),
        }
        self.text_remaining = self.text_remaining - len;
        Ok(())
    }

    /// Finishes a text part: the buffered bytes are decoded strictly as
    /// UTF-8 and the text field is appended, or the decode fails with the
    /// length of the longest valid prefix and the decoder unchanged.
    pub fn finish_text(&mut self) -> (r: Result<(), DecodeError>)
        requires
            old(self).wf(),
            old(self).pending_model() is Text,
        ensures
            final(self).wf(),
            final(self).spec_config() == old(self).spec_config(),
            final(self).spec_text_remaining() == old(self).spec_text_remaining(),
            final(self).spec_file_remaining() == old(self).spec_file_remaining(),
            ({
                let name = old(self).pending_model().text_name();
                let buf = old(self).pending_model().text_buf();
                if valid_utf8(buf) {
                    &&& r == Ok::<(), DecodeError>(())
                    &&& final(self).fields_model() == old(self).fields_model().push(
                        FieldModel::Text(TextModel { name, text: decode_utf8(buf) }),
                    )
                    &&& final(self).pending_model() is Idle
                } else {
                    &&& r == Err::<(), DecodeError>(
                        DecodeError::Utf8Error { valid_up_to: utf8_valid_prefix_len(buf) as usize },
                    )
                    &&& *final(self) == *old(self)
                }
            }),
    {
        let mut pending = Pending::Idle;
        core::mem::swap(&mut pending, &mut self.pending);
        match pending {
            Pending::Text { name, buf } => {
                match text::validate_utf8(buf.as_slice()) {
                    Ok(()) => {
                        let ghost buf_model = buf@;
                        let ghost old_fields = self.fields.deep_view();
                        let ghost elem = FieldModel::Text(
                            TextModel { name: name@, text: decode_utf8(buf_model) },
                        );
                        let s = text::string_from_utf8(buf);
                        self.fields.push(MultipartField::Text(MultipartText { name, text: s }));
                        proof {
                            decode_utf8_encode_utf8(buf_model);
                            assert(self.fields.deep_view() =~= old_fields.push(elem));
                            assert(old_fields.push(elem).drop_last() =~= old_fields);
                        }
                        Ok(())
                    },
                    Err(i) => {
                        // The decode is aborted by the caller; the pending
                        // part is restored so the accounting invariant
                        // stands.
                        self.pending = Pending::Text { name, buf };
                        Err(DecodeError::Utf8Error { valid_up_to: i })
                    },
                }
            },
            p => {
                // Ruled out by the precondition: a text part is pending.
                proof {
                    assert(false);
                }
                self.pending = p;
                Err(DecodeError::Utf8Error { valid_up_to: 0 })
            },
        }
    }

    /// Accepts one chunk of a file part by its length, before the caller
    /// writes the chunk to the backing store: a chunk that does not fit the
    /// remaining file budget fails the decode with the budget untouched and
    /// must not be written.
    pub fn file_chunk(&mut self, len: u64) -> (r: Result<(), DecodeError>)
        requires
            old(self).wf(),
            old(self).pending_model() is File,
        ensures
            final(self).wf(),
            final(self).spec_config() == old(self).spec_config(),
            final(self).fields_model() == old(self).fields_model(),
            final(self).spec_text_remaining() == old(self).spec_text_remaining(),
            if len > old(self).spec_file_remaining() {
                &&& r == Err::<(), DecodeError>(DecodeError::FileBudgetExceeded)
                &&& *final(self) == *old(self)
            } else {
                &&& r == Ok::<(), DecodeError>(())
                &&& final(self).spec_file_remaining() == old(self).spec_file_remaining() - len
                &&& final(self).pending_model() == (PendingModel::File {
                    name: old(self).pending_model().file_name(),
                    filename: old(self).pending_model().file_filename(),
                    mime: old(self).pending_model().file_mime(),
                    written: (old(self).pending_model().file_written() + len) as u64,
                })
            },
    {
        if len > self.file_remaining {
            return Err(DecodeError::FileBudgetExceeded);
        }
        proof {
            lemma_totals_nonneg(self.fields_model());
        }
        match &mut self.pending {
            Pending::File { written, .. } => {
                *written = *written + len;
            },
            _ => (),
        }
        self.file_remaining = self.file_remaining - len;
        Ok(())
    }

    /// Finishes a file part: takes ownership of the backing store the
    /// caller wrote the accepted chunks to, and appends the file field,
    /// whose size is exactly the bytes accepted.
    pub fn finish_file(&mut self, file: F)
        requires
            old(self).wf(),
            old(self).pending_model() is File,
        ensures
            final(self).wf(),
            final(self).spec_config() == old(self).spec_config(),
            final(self).spec_text_remaining() == old(self).spec_text_remaining(),
            final(self).spec_file_remaining() == old(self).spec_file_remaining(),
            final(self).fields_model() == old(self).fields_model().push(
                FieldModel::File(
                    FileModel {
                        name: old(self).pending_model().file_name(),
                        filename: old(self).pending_model().file_filename(),
                        mime: old(self).pending_model().file_mime(),
                        size: old(self).pending_model().file_written(),
                    },
                ),
            ),
            final(self).pending_model() is Idle,
    {
        let mut pending = Pending::Idle;
        core::mem::swap(&mut pending, &mut self.pending);
        match pending {
            Pending::File { name, filename, mime, written } => {
                let ghost old_fields = self.fields.deep_view();
                let ghost elem = FieldModel::File(
                    FileModel {
                        name: name@,
                        filename: filename.deep_view(),
                        mime: mime@,
                        size: written,
                    },
                );
                self.fields.push(
                    MultipartField::File(
                        MultipartFile { file, size: written, name, filename, mime },
                    ),
                );
                proof {
                    assert(self.fields.deep_view() =~= old_fields.push(elem));
                    assert(old_fields.push(elem).drop_last() =~= old_fields);
                }
            },
            p => {
                // Ruled out by the precondition: a file part is pending.
                proof {
                    assert(false);
                }
                self.pending = p;
            },
        }
    }

    /// Ends the decode after the last part: the ordered field list, exactly
    /// the fields accumulated.
    pub fn finish(self) -> (r: Multiparts<F>)
        requires
            self.pending_model() is Idle,
        ensures
            r.deep_view() == self.fields_model(),
    {
        self.fields
    }
}


/// One fully materialized part, for decoding a whole form in one call: the
/// headers, the byte chunks as they arrived, and, for a part that
/// classifies as a file upload, the backing store the caller wrote those
/// bytes to.
pub struct Part<F> {
    /// The part's headers.
    pub headers: PartHeaders,
    /// The part's payload, split into the chunks the transport delivered.
    pub chunks: Vec<Vec<u8>>,
    /// The backing store holding the part's bytes; required when the part
    /// classifies as a file upload, ignored otherwise.
    pub file: Option<F>,
}

/// The ghost description of one part: its headers and chunks. The backing
/// store is not part of the model.
pub ghost struct PartModel {
    pub headers: HeadersModel,
    pub chunks: Seq<Seq<u8>>,
}

impl<F> View for Part<F> {
    type V = PartModel;

    open spec fn view(&self) -> PartModel {
        PartModel { headers: self.headers@, chunks: self.chunks.deep_view() }
    }
}

impl<F> DeepView for Part<F> {
    type V = PartModel;

    open spec fn deep_view(&self) -> PartModel {
        self.view()
    }
}

/// The total length in bytes of a chunk sequence.
pub open spec fn chunks_total(chunks: Seq<Seq<u8>>) -> int
    decreases chunks.len(),
{
    if chunks.len() == 0 {
        0
    } else {
        chunks_total(chunks.drop_last()) + chunks.last().len()
    }
}

/// A chunk sequence joined into the part's byte payload.
pub open spec fn chunks_concat(chunks: Seq<Seq<u8>>) -> Seq<u8>
    decreases chunks.len(),
{
    if chunks.len() == 0 {
        Seq::empty()
    } else {
        chunks_concat(chunks.drop_last()) + chunks.last()
    }
}

// A chunk total is never negative.
proof fn lemma_chunks_total_nonneg(chunks: Seq<Seq<u8>>)
    ensures
        chunks_total(chunks) >= 0,
    decreases chunks.len(),
{
    if chunks.len() > 0 {
        lemma_chunks_total_nonneg(chunks.drop_last());
    }
}

// Later chunks never shrink the total: a prefix totals at most the whole.
proof fn lemma_chunks_take_le(chunks: Seq<Seq<u8>>, k: int)
    requires
        0 <= k <= chunks.len(),
    ensures
        chunks_total(chunks.take(k)) <= chunks_total(chunks),
    decreases chunks.len(),
{
    if k < chunks.len() {
        let t = chunks.drop_last();
        assert(chunks.take(k) =~= t.take(k));
        lemma_chunks_take_le(t, k);
    } else {
        assert(chunks.take(k) =~= chunks);
    }
}

// Runs one materialized part through the decoder: admission,
// classification, chunk accounting and the finishing step, exactly one
// layer of `decode_spec`.
#[verifier::loop_isolation(false)]
fn run_part<F>(d: &mut Decoder<F>, p: Part<F>) -> (r: Result<(), DecodeError>)
    requires
        old(d).wf(),
        old(d).pending_model() is Idle,
        (classify_spec(p@.headers) matches Some(ClassModel::File { .. })) ==> p.file is Some,
    ensures
        final(d).wf(),
        final(d).spec_config() == old(d).spec_config(),
        ({
            let total = chunks_total(p@.chunks);
            let bytes = chunks_concat(p@.chunks);
            if old(d).fields_model().len() >= old(d).spec_config().spec_max_parts() {
                r == Err::<(), DecodeError>(DecodeError::PartCountExceeded)
            } else {
                match classify_spec(p@.headers) {
                    None => r == Err::<(), DecodeError>(DecodeError::HeaderError),
                    Some(ClassModel::Text { name }) => {
                        if total > old(d).spec_text_remaining() {
                            r == Err::<(), DecodeError>(DecodeError::TextBudgetExceeded)
                        } else if !valid_utf8(bytes) {
                            r == Err::<(), DecodeError>(
                                DecodeError::Utf8Error {
                                    valid_up_to: utf8_valid_prefix_len(bytes) as usize,
                                },
                            )
                        } else {
                            &&& r == Ok::<(), DecodeError>(())
                            &&& final(d).fields_model() == old(d).fields_model().push(
                                FieldModel::Text(TextModel { name, text: decode_utf8(bytes) }),
                            )
                            &&& final(d).spec_text_remaining() == old(d).spec_text_remaining()
                                - total
                            &&& final(d).spec_file_remaining() == old(d).spec_file_remaining()
                            &&& final(d).pending_model() is Idle
                        }
                    },
                    Some(ClassModel::File { name, filename, mime }) => {
                        if total > old(d).spec_file_remaining() {
                            r == Err::<(), DecodeError>(DecodeError::FileBudgetExceeded)
                        } else {
                            &&& r == Ok::<(), DecodeError>(())
                            &&& final(d).fields_model() == old(d).fields_model().push(
                                FieldModel::File(
                                    FileModel { name, filename, mime, size: total as u64 },
                                ),
                            )
                            &&& final(d).spec_file_remaining() == old(d).spec_file_remaining()
                                - total
                            &&& final(d).spec_text_remaining() == old(d).spec_text_remaining()
                            &&& final(d).pending_model() is Idle
                        }
                    },
                }
            }
        }),
{
    let ghost cm = p.chunks.deep_view();
    match d.begin_part(&p.headers) {
        Err(e) => Err(e),
        Ok(PartKind::Text) => {
            let ghost cfg = d.spec_config();
            let ghost fields0 = d.fields_model();
            let ghost tr0 = d.spec_text_remaining();
            let ghost fr0 = d.spec_file_remaining();
            let ghost name0 = d.pending_model().text_name();
            proof {
                assert(cm.take(0) =~= Seq::<Seq<u8>>::empty());
                assert(d.pending_model().text_buf() =~= chunks_concat(cm.take(0)));
            }
            let n = p.chunks.len();
            let mut j: usize = 0;
            while j < n
                invariant
                    j <= n,
                    n == p.chunks@.len(),
                    cm == p.chunks.deep_view(),
                    cm.len() == n,
                    d.wf(),
                    d.spec_config() == cfg,
                    d.fields_model() == fields0,
                    d.spec_file_remaining() == fr0,
                    d.pending_model() == (PendingModel::Text {
                        name: name0,
                        buf: chunks_concat(cm.take(j as int)),
                    }),
                    d.spec_text_remaining() == tr0 - chunks_total(cm.take(j as int)),
                decreases n - j,
            {
                let chunk = &p.chunks[j];
                proof {
                    assert(cm[j as int] == p.chunks@[j as int]@);
                    assert(cm.take(j as int + 1).drop_last() =~= cm.take(j as int));
                    assert(cm.take(j as int + 1).last() == cm[j as int]);
                }
                match d.text_chunk(chunk.as_slice()) {
                    Ok(()) => {},
                    Err(e) => {
                        proof {
                            lemma_chunks_take_le(cm, j as int + 1);
                        }
                        return Err(e);
                    },
                }
                j = j + 1;
            }
            proof {
                assert(cm.take(n as int) =~= cm);
            }
            match d.finish_text() {
                Ok(()) => Ok(()),
                Err(e) => Err(e),
            }
        },
        Ok(PartKind::File) => {
            let ghost cfg = d.spec_config();
            let ghost fields0 = d.fields_model();
            let ghost tr0 = d.spec_text_remaining();
            let ghost fr0 = d.spec_file_remaining();
            let ghost name0 = d.pending_model().file_name();
            let ghost filename0 = d.pending_model().file_filename();
            let ghost mime0 = d.pending_model().file_mime();
            proof {
                assert(cm.take(0) =~= Seq::<Seq<u8>>::empty());
            }
            let n = p.chunks.len();
            let mut j: usize = 0;
            while j < n
                invariant
                    j <= n,
                    n == p.chunks@.len(),
                    cm == p.chunks.deep_view(),
                    cm.len() == n,
                    d.wf(),
                    d.spec_config() == cfg,
                    d.fields_model() == fields0,
                    d.spec_text_remaining() == tr0,
                    d.pending_model() == (PendingModel::File {
                        name: name0,
                        filename: filename0,
                        mime: mime0,
                        written: chunks_total(cm.take(j as int)) as u64,
                    }),
                    d.spec_file_remaining() == fr0 - chunks_total(cm.take(j as int)),
                    chunks_total(cm.take(j as int)) >= 0,
                decreases n - j,
            {
                let chunk = &p.chunks[j];
                proof {
                    assert(cm[j as int] == p.chunks@[j as int]@);
                    assert(cm.take(j as int + 1).drop_last() =~= cm.take(j as int));
                    assert(cm.take(j as int + 1).last() == cm[j as int]);
                }
                match d.file_chunk(chunk.len() as u64) {
                    Ok(()) => {},
                    Err(e) => {
                        proof {
                            lemma_chunks_take_le(cm, j as int + 1);
                        }
                        return Err(e);
                    },
                }
                j = j + 1;
            }
            proof {
                assert(cm.take(n as int) =~= cm);
                lemma_chunks_total_nonneg(cm);
            }
            match p.file {
                Some(f) => {
                    d.finish_file(f);
                    Ok(())
                },
                None => {
                    // Ruled out by the precondition: a part that classifies
                    // as a file upload comes with its backing store.
                    proof {
                        assert(false);
                    }
                    Err(DecodeError::IoError)
                },
            }
        },
    }
}

/// The mathematical model of a whole decode: the parts in arrival order are
/// admitted against the remaining part count, classified, charged against
/// the matching byte budget, and turned into fields; the first failure is
/// the result of the whole operation and no field list is produced.
pub open spec fn decode_spec(
    parts: Seq<PartModel>,
    text_rem: int,
    file_rem: int,
    parts_rem: int,
) -> Result<Seq<FieldModel>, DecodeError>
    decreases parts.len(),
{
    if parts.len() == 0 {
        Ok(Seq::empty())
    } else {
        let p = parts[0];
        if parts_rem <= 0 {
            Err(DecodeError::PartCountExceeded)
        } else {
            match classify_spec(p.headers) {
                None => Err(DecodeError::HeaderError),
                Some(ClassModel::Text { name }) => {
                    let total = chunks_total(p.chunks);
                    let bytes = chunks_concat(p.chunks);
                    if total > text_rem {
                        Err(DecodeError::TextBudgetExceeded)
                    } else if !valid_utf8(bytes) {
                        Err(
                            DecodeError::Utf8Error {
                                valid_up_to: utf8_valid_prefix_len(bytes) as usize,
                            },
                        )
                    } else {
                        match decode_spec(
                            parts.drop_first(),
                            text_rem - total,
                            file_rem,
                            parts_rem - 1,
                        ) {
                            Ok(rest) => Ok(
                                seq![
                                    FieldModel::Text(TextModel { name, text: decode_utf8(bytes) }),
                                ] + rest,
                            ),
                            Err(e) => Err(e),
                        }
                    }
                },
                Some(ClassModel::File { name, filename, mime }) => {
                    let total = chunks_total(p.chunks);
                    if total > file_rem {
                        Err(DecodeError::FileBudgetExceeded)
                    } else {
                        match decode_spec(
                            parts.drop_first(),
                            text_rem,
                            file_rem - total,
                            parts_rem - 1,
                        ) {
                            Ok(rest) => Ok(
                                seq![
                                    FieldModel::File(
                                        FileModel { name, filename, mime, size: total as u64 },
                                    ),
                                ] + rest,
                            ),
                            Err(e) => Err(e),
                        }
                    }
                },
            }
        }
    }
}

/// Decodes a whole form in one call from fully materialized parts,
/// producing exactly what [`decode_spec`] says for the configured budgets:
/// the ordered field list on success, the first structural or budget error
/// otherwise, and never a partial result.
#[verifier::loop_isolation(false)]
pub fn decode<F>(parts: Vec<Part<F>>, config: MultipartLoadConfig) -> (r: Result<
    Multiparts<F>,
    DecodeError,
>)
    requires
        forall|i: int|
            0 <= i < parts@.len() ==> ((classify_spec(
                #[trigger] parts@[i]@.headers,
            ) matches Some(ClassModel::File { .. })) ==> parts@[i].file is Some),
    ensures
        ({
            let s = decode_spec(
                parts.deep_view(),
                config.spec_text_limit() as int,
                config.spec_file_limit() as int,
                config.spec_max_parts() as int,
            );
            match r {
                Ok(fields) => s == Ok::<Seq<FieldModel>, DecodeError>(fields.deep_view()),
                Err(e) => s == Err::<Seq<FieldModel>, DecodeError>(e),
            }
        }),
{
    let ghost parts0 = parts.deep_view();
    let ghost tl = config.spec_text_limit() as int;
    let ghost fl = config.spec_file_limit() as int;
    let ghost mp = config.spec_max_parts() as int;
    let mut parts = parts;
    let mut d: Decoder<F> = Decoder::new(config);
    proof {
        match decode_spec(parts0, tl, fl, mp) {
            Ok(rest) => {
                assert(Seq::<FieldModel>::empty() + rest =~= rest);
            },
            Err(_) => {},
        }
    }
    while parts.len() > 0
        invariant
            d.wf(),
            d.pending_model() is Idle,
            d.spec_config() == config,
            tl == config.spec_text_limit() as int,
            fl == config.spec_file_limit() as int,
            mp == config.spec_max_parts() as int,
            forall|i: int|
                0 <= i < parts@.len() ==> ((classify_spec(
                    #[trigger] parts@[i]@.headers,
                ) matches Some(ClassModel::File { .. })) ==> parts@[i].file is Some),
            decode_spec(parts0, tl, fl, mp) == (match decode_spec(
                parts.deep_view(),
                d.spec_text_remaining() as int,
                d.spec_file_remaining() as int,
                mp - d.fields_model().len(),
            ) {
                Ok(rest) => Ok::<Seq<FieldModel>, DecodeError>(d.fields_model() + rest),
                Err(e) => Err::<Seq<FieldModel>, DecodeError>(e),
            }),
        decreases parts@.len(),
    {
        let ghost prev = parts.deep_view();
        let ghost prev_view = parts@;
        let ghost fields_before = d.fields_model();
        let ghost tr_before = d.spec_text_remaining() as int;
        let ghost fr_before = d.spec_file_remaining() as int;
        let p = parts.remove(0);
        proof {
            assert(parts.deep_view() =~= prev.drop_first());
            assert(p.deep_view() == prev[0]);
            assert forall|i: int| 0 <= i < parts@.len() implies ((classify_spec(
                #[trigger] parts@[i]@.headers,
            ) matches Some(ClassModel::File { .. })) ==> parts@[i].file is Some) by {
                assert(parts@[i] == prev_view[i + 1]);
            }
        }
        match run_part(&mut d, p) {
            Err(e) => {
                return Err(e);
            },
            Ok(()) => {
                proof {
                    let total = chunks_total(prev[0].chunks);
                    match classify_spec(prev[0].headers) {
                        Some(ClassModel::Text { name }) => {
                            let elem = FieldModel::Text(
                                TextModel {
                                    name,
                                    text: decode_utf8(chunks_concat(prev[0].chunks)),
                                },
                            );
                            match decode_spec(
                                parts.deep_view(),
                                d.spec_text_remaining() as int,
                                d.spec_file_remaining() as int,
                                mp - d.fields_model().len(),
                            ) {
                                Ok(rest) => {
                                    assert(fields_before + (seq![elem] + rest) =~= d.fields_model()
                                        + rest);
                                },
                                Err(_) => {},
                            }
                        },
                        Some(ClassModel::File { name, filename, mime }) => {
                            let elem = FieldModel::File(
                                FileModel { name, filename, mime, size: total as u64 },
                            );
                            match decode_spec(
                                parts.deep_view(),
                                d.spec_text_remaining() as int,
                                d.spec_file_remaining() as int,
                                mp - d.fields_model().len(),
                            ) {
                                Ok(rest) => {
                                    assert(fields_before + (seq![elem] + rest) =~= d.fields_model()
                                        + rest);
                                },
                                Err(_) => {},
                            }
                        },
                        None => {
                            assert(false);
                        },
                    }
                }
            },
        }
    }
    proof {
        assert(d.fields_model() + Seq::<FieldModel>::empty() =~= d.fields_model());
    }
    let fields = d.finish();
    Ok(fields)
}


/// True when a part classifies as text.
pub open spec fn is_text_part(p: PartModel) -> bool {
    classify_spec(p.headers) matches Some(ClassModel::Text { .. })
}

/// True when a part classifies as a file upload.
pub open spec fn is_file_part(p: PartModel) -> bool {
    classify_spec(p.headers) matches Some(ClassModel::File { .. })
}

/// A part that decodes without a structural error of its own: it has a
/// form-data disposition and a field name, and a text part's payload is
/// valid UTF-8.
pub open spec fn part_ok(p: PartModel) -> bool {
    &&& classify_spec(p.headers) is Some
    &&& (is_text_part(p) ==> valid_utf8(chunks_concat(p.chunks)))
}

/// Every part of the sequence is structurally fine.
pub open spec fn parts_ok(parts: Seq<PartModel>) -> bool {
    forall|i: int| 0 <= i < parts.len() ==> part_ok(#[trigger] parts[i])
}

/// The total payload bytes of the text parts of a sequence.
pub open spec fn total_text_of(parts: Seq<PartModel>) -> int
    decreases parts.len(),
{
    if parts.len() == 0 {
        0
    } else {
        (if is_text_part(parts[0]) {
            chunks_total(parts[0].chunks)
        } else {
            0
        }) + total_text_of(parts.drop_first())
    }
}

/// The total payload bytes of the file parts of a sequence.
pub open spec fn total_file_of(parts: Seq<PartModel>) -> int
    decreases parts.len(),
{
    if parts.len() == 0 {
        0
    } else {
        (if is_file_part(parts[0]) {
            chunks_total(parts[0].chunks)
        } else {
            0
        }) + total_file_of(parts.drop_first())
    }
}

// Payload totals are never negative.
proof fn lemma_totals_of_nonneg(parts: Seq<PartModel>)
    ensures
        total_text_of(parts) >= 0,
        total_file_of(parts) >= 0,
    decreases parts.len(),
{
    if parts.len() > 0 {
        lemma_chunks_total_nonneg(parts[0].chunks);
        lemma_totals_of_nonneg(parts.drop_first());
    }
}

// A prefix of a part sequence totals at most the whole sequence, for both
// payload kinds.
proof fn lemma_totals_of_take_le(parts: Seq<PartModel>, k: int)
    requires
        0 <= k <= parts.len(),
    ensures
        total_text_of(parts.take(k)) <= total_text_of(parts),
        total_file_of(parts.take(k)) <= total_file_of(parts),
    decreases parts.len(),
{
    lemma_totals_of_nonneg(parts);
    lemma_totals_of_nonneg(parts.take(k));
    if k == 0 {
    } else if parts.len() > 0 {
        assert(parts.take(k)[0] == parts[0]);
        assert(parts.take(k).drop_first() =~= parts.drop_first().take(k - 1));
        lemma_totals_of_take_le(parts.drop_first(), k - 1);
    }
}

/// A decode of structurally fine parts whose text payloads fit the text
/// budget, whose file payloads fit the file budget, and whose count fits
/// the part cap always succeeds, and the field list holds exactly one
/// field per part.
pub proof fn lemma_decode_within_budgets(
    parts: Seq<PartModel>,
    text_rem: int,
    file_rem: int,
    parts_rem: int,
)
    requires
        parts_ok(parts),
        total_text_of(parts) <= text_rem,
        total_file_of(parts) <= file_rem,
        parts.len() <= parts_rem,
    ensures
        decode_spec(parts, text_rem, file_rem, parts_rem) matches Ok(fields) && fields.len()
            == parts.len(),
    decreases parts.len(),
{
    if parts.len() > 0 {
        let p = parts[0];
        assert(part_ok(p));
        let rest = parts.drop_first();
        let total = chunks_total(p.chunks);
        lemma_chunks_total_nonneg(p.chunks);
        lemma_totals_of_nonneg(rest);
        assert(parts_ok(rest)) by {
            assert forall|i: int| 0 <= i < rest.len() implies part_ok(#[trigger] rest[i]) by {
                assert(rest[i] == parts[i + 1]);
            }
        }
        if is_text_part(p) {
            lemma_decode_within_budgets(rest, text_rem - total, file_rem, parts_rem - 1);
        } else {
            lemma_decode_within_budgets(rest, text_rem, file_rem - total, parts_rem - 1);
        }
    }
}

/// A decode fails with the text budget error as soon as one part's text
/// payload, written after the parts before it, first crosses the text
/// budget: the parts before part `i` are fine and fit both budgets, part
/// `i` is a text part whose payload does not fit what the budget has left,
/// and the whole decode reports exactly that, with no field list at all.
pub proof fn lemma_decode_text_budget_exceeded(
    parts: Seq<PartModel>,
    i: int,
    text_rem: int,
    file_rem: int,
    parts_rem: int,
)
    requires
        0 <= i < parts.len() <= parts_rem,
        forall|j: int| 0 <= j < i ==> part_ok(#[trigger] parts[j]),
        total_text_of(parts.take(i)) <= text_rem,
        total_file_of(parts.take(i)) <= file_rem,
        is_text_part(parts[i]),
        chunks_total(parts[i].chunks) > text_rem - total_text_of(parts.take(i)),
    ensures
        decode_spec(parts, text_rem, file_rem, parts_rem) == Err::<
            Seq<FieldModel>,
            DecodeError,
        >(DecodeError::TextBudgetExceeded),
    decreases i,
{
    let p = parts[0];
    let rest = parts.drop_first();
    if i == 0 {
        assert(parts.take(0) =~= Seq::<PartModel>::empty());
    } else {
        assert(part_ok(p));
        assert(parts.take(i)[0] == p);
        assert(parts.take(i).drop_first() =~= rest.take(i - 1));
        lemma_totals_of_nonneg(rest.take(i - 1));
        lemma_chunks_total_nonneg(p.chunks);
        let total = chunks_total(p.chunks);
        assert(rest[i - 1] == parts[i]);
        assert forall|j: int| 0 <= j < i - 1 implies part_ok(#[trigger] rest[j]) by {
            assert(rest[j] == parts[j + 1]);
        }
        if is_text_part(p) {
            lemma_decode_text_budget_exceeded(rest, i - 1, text_rem - total, file_rem, parts_rem
                - 1);
        } else {
            lemma_decode_text_budget_exceeded(rest, i - 1, text_rem, file_rem - total, parts_rem
                - 1);
        }
    }
}

/// The counterpart of [`lemma_decode_text_budget_exceeded`] for a file
/// part that first crosses the file budget.
pub proof fn lemma_decode_file_budget_exceeded(
    parts: Seq<PartModel>,
    i: int,
    text_rem: int,
    file_rem: int,
    parts_rem: int,
)
    requires
        0 <= i < parts.len() <= parts_rem,
        forall|j: int| 0 <= j < i ==> part_ok(#[trigger] parts[j]),
        total_text_of(parts.take(i)) <= text_rem,
        total_file_of(parts.take(i)) <= file_rem,
        is_file_part(parts[i]),
        chunks_total(parts[i].chunks) > file_rem - total_file_of(parts.take(i)),
    ensures
        decode_spec(parts, text_rem, file_rem, parts_rem) == Err::<
            Seq<FieldModel>,
            DecodeError,
        >(DecodeError::FileBudgetExceeded),
    decreases i,
{
    let p = parts[0];
    let rest = parts.drop_first();
    if i == 0 {
        assert(parts.take(0) =~= Seq::<PartModel>::empty());
    } else {
        assert(part_ok(p));
        assert(parts.take(i)[0] == p);
        assert(parts.take(i).drop_first() =~= rest.take(i - 1));
        lemma_totals_of_nonneg(rest.take(i - 1));
        lemma_chunks_total_nonneg(p.chunks);
        let total = chunks_total(p.chunks);
        assert(rest[i - 1] == parts[i]);
        assert forall|j: int| 0 <= j < i - 1 implies part_ok(#[trigger] rest[j]) by {
            assert(rest[j] == parts[j + 1]);
        }
        if is_text_part(p) {
            lemma_decode_file_budget_exceeded(rest, i - 1, text_rem - total, file_rem, parts_rem
                - 1);
        } else {
            lemma_decode_file_budget_exceeded(rest, i - 1, text_rem, file_rem - total, parts_rem
                - 1);
        }
    }
}

// More parts than the cap allows always fail with the part-count error,
// provided nothing else fails first.
proof fn lemma_decode_too_many_parts(
    parts: Seq<PartModel>,
    text_rem: int,
    file_rem: int,
    parts_rem: int,
)
    requires
        parts_ok(parts),
        total_text_of(parts) <= text_rem,
        total_file_of(parts) <= file_rem,
        0 <= parts_rem < parts.len(),
    ensures
        decode_spec(parts, text_rem, file_rem, parts_rem) == Err::<
            Seq<FieldModel>,
            DecodeError,
        >(DecodeError::PartCountExceeded),
    decreases parts.len(),
{
    if parts_rem > 0 {
        let p = parts[0];
        assert(part_ok(p));
        let rest = parts.drop_first();
        let total = chunks_total(p.chunks);
        lemma_chunks_total_nonneg(p.chunks);
        lemma_totals_of_nonneg(rest);
        assert(parts_ok(rest)) by {
            assert forall|i: int| 0 <= i < rest.len() implies part_ok(#[trigger] rest[i]) by {
                assert(rest[i] == parts[i + 1]);
            }
        }
        if is_text_part(p) {
            lemma_decode_too_many_parts(rest, text_rem - total, file_rem, parts_rem - 1);
        } else {
            lemma_decode_too_many_parts(rest, text_rem, file_rem - total, parts_rem - 1);
        }
    }
}

/// Submitting one part more than the cap fails with the part-count error,
/// while the same submission without its last part succeeds: with `max + 1`
/// structurally fine parts within both byte budgets, the decode reports
/// exactly the part-count error, and the decode of the first `max` parts
/// yields a field list of length `max`.
pub proof fn lemma_decode_part_count(
    parts: Seq<PartModel>,
    text_rem: int,
    file_rem: int,
    max: int,
)
    requires
        parts_ok(parts),
        total_text_of(parts) <= text_rem,
        total_file_of(parts) <= file_rem,
        parts.len() == max + 1,
        max >= 0,
    ensures
        decode_spec(parts, text_rem, file_rem, max) == Err::<
            Seq<FieldModel>,
            DecodeError,
        >(DecodeError::PartCountExceeded),
        decode_spec(parts.take(max), text_rem, file_rem, max) matches Ok(fields) && fields.len()
            == max,
{
    lemma_decode_too_many_parts(parts, text_rem, file_rem, max);
    lemma_totals_of_take_le(parts, max);
    assert(parts_ok(parts.take(max))) by {
        assert forall|i: int| 0 <= i < max implies part_ok(#[trigger] parts.take(max)[i]) by {
            assert(parts.take(max)[i] == parts[i]);
        }
    }
    lemma_decode_within_budgets(parts.take(max), text_rem, file_rem, max);
}

} // verus!
