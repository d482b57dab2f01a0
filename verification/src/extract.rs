//! Typed extraction of named fields from a decoded multipart form.
//!
//! Extraction happens after the decode: given the field list and a field
//! name, [`MultipartType::get`] yields exactly one value of the requested
//! type, and [`MultipartTypeSpecial::get`] yields an optional or repeated
//! one. Text fields are parsed through [`FromText`] and are never removed,
//! so they can be read again; a successful file extraction transfers
//! ownership of the backing stores to the caller and removes the matched
//! fields from the list, so the same file can never be claimed twice. A
//! failed extraction removes nothing.

use crate::errors::{GetError, GetErrorModel};
use crate::field::{FieldModel, FileModel, MultipartField, MultipartFile, Multiparts};
use crate::numparse;
use vstd::prelude::*;
use vstd::string::StringExecFns;

verus! {

/// The text values of the text fields named `name`, in list order.
pub open spec fn text_matches(fields: Seq<FieldModel>, name: Seq<char>) -> Seq<Seq<char>>
    decreases fields.len(),
{
    if fields.len() == 0 {
        Seq::empty()
    } else {
        let rest = text_matches(fields.drop_last(), name);
        match fields.last() {
            FieldModel::Text(t) => if t.name == name {
                rest.push(t.text)
            } else {
                rest
            },
            FieldModel::File(_) => rest,
        }
    }
}

/// The file fields named `name`, in list order.
pub open spec fn file_matches(fields: Seq<FieldModel>, name: Seq<char>) -> Seq<FileModel>
    decreases fields.len(),
{
    if fields.len() == 0 {
        Seq::empty()
    } else {
        let rest = file_matches(fields.drop_last(), name);
        match fields.last() {
            FieldModel::File(f) => if f.name == name {
                rest.push(f)
            } else {
                rest
            },
            FieldModel::Text(_) => rest,
        }
    }
}

/// The field list with the file fields named `name` taken out and every
/// other field left in place, in order.
pub open spec fn remove_file_matches(fields: Seq<FieldModel>, name: Seq<char>) -> Seq<FieldModel>
    decreases fields.len(),
{
    if fields.len() == 0 {
        Seq::empty()
    } else {
        let rest = remove_file_matches(fields.drop_last(), name);
        match fields.last() {
            FieldModel::File(f) => if f.name == name {
                rest
            } else {
                rest.push(fields.last())
            },
            FieldModel::Text(_) => rest.push(fields.last()),
        }
    }
}

/// The capability of being parsed from the value of a text field: the
/// parseable scalar types implement it.
pub trait FromText: Sized + DeepView {
    /// The value a text parses to, if any.
    spec fn parse_spec(text: Seq<char>) -> Option<Self::V>;

    /// The name of the target type, named by conversion errors.
    spec fn type_label() -> Seq<char>;

    /// Parses one text value, yielding exactly what [`Self::parse_spec`]
    /// allows.
    fn from_text(text: &str) -> (r: Option<Self>)
        ensures
            match r {
                Some(v) => Self::parse_spec(text@) == Some(v.deep_view()),
                None => Self::parse_spec(text@) is None,
            },
    ;

    /// The name of the target type, as a string.
    fn label() -> (r: String)
        ensures
            r@ == Self::type_label(),
    ;
}

impl FromText for String {
    open spec fn parse_spec(text: Seq<char>) -> Option<Seq<char>> {
        Some(text)
    }

    open spec fn type_label() -> Seq<char> {
        "String"@
    }

    fn from_text(text: &str) -> (r: Option<String>) {
        Some(text.to_owned())
    }

    fn label() -> (r: String) {
        String::from_str("String")
    }
}

impl FromText for i64 {
    open spec fn parse_spec(text: Seq<char>) -> Option<i64> {
        numparse::parse_i64_spec(text)
    }

    open spec fn type_label() -> Seq<char> {
        "i64"@
    }

    fn from_text(text: &str) -> (r: Option<i64>) {
        numparse::parse_i64(text)
    }

    fn label() -> (r: String) {
        String::from_str("i64")
    }
}

impl FromText for i32 {
    open spec fn parse_spec(text: Seq<char>) -> Option<i32> {
        numparse::parse_i32_spec(text)
    }

    open spec fn type_label() -> Seq<char> {
        "i32"@
    }

    fn from_text(text: &str) -> (r: Option<i32>) {
        numparse::parse_i32(text)
    }

    fn label() -> (r: String) {
        String::from_str("i32")
    }
}

impl FromText for u64 {
    open spec fn parse_spec(text: Seq<char>) -> Option<u64> {
        numparse::parse_u64_spec(text)
    }

    open spec fn type_label() -> Seq<char> {
        "u64"@
    }

    fn from_text(text: &str) -> (r: Option<u64>) {
        numparse::parse_u64(text)
    }

    fn label() -> (r: String) {
        String::from_str("u64")
    }
}

impl FromText for i8 {
    open spec fn parse_spec(text: Seq<char>) -> Option<i8> {
        numparse::parse_i8_spec(text)
    }

    open spec fn type_label() -> Seq<char> {
        "i8"@
    }

    fn from_text(text: &str) -> (r: Option<i8>) {
        numparse::parse_i8(text)
    }

    fn label() -> (r: String) {
        String::from_str("i8")
    }
}

impl FromText for i16 {
    open spec fn parse_spec(text: Seq<char>) -> Option<i16> {
        numparse::parse_i16_spec(text)
    }

    open spec fn type_label() -> Seq<char> {
        "i16"@
    }

    fn from_text(text: &str) -> (r: Option<i16>) {
        numparse::parse_i16(text)
    }

    fn label() -> (r: String) {
        String::from_str("i16")
    }
}

impl FromText for i128 {
    open spec fn parse_spec(text: Seq<char>) -> Option<i128> {
        numparse::parse_i128_spec(text)
    }

    open spec fn type_label() -> Seq<char> {
        "i128"@
    }

    fn from_text(text: &str) -> (r: Option<i128>) {
        numparse::parse_i128(text)
    }

    fn label() -> (r: String) {
        String::from_str("i128")
    }
}

impl FromText for isize {
    open spec fn parse_spec(text: Seq<char>) -> Option<isize> {
        numparse::parse_isize_spec(text)
    }

    open spec fn type_label() -> Seq<char> {
        "isize"@
    }

    fn from_text(text: &str) -> (r: Option<isize>) {
        numparse::parse_isize(text)
    }

    fn label() -> (r: String) {
        String::from_str("isize")
    }
}

impl FromText for u8 {
    open spec fn parse_spec(text: Seq<char>) -> Option<u8> {
        numparse::parse_u8_spec(text)
    }

    open spec fn type_label() -> Seq<char> {
        "u8"@
    }

    fn from_text(text: &str) -> (r: Option<u8>) {
        numparse::parse_u8(text)
    }

    fn label() -> (r: String) {
        String::from_str("u8")
    }
}

impl FromText for u16 {
    open spec fn parse_spec(text: Seq<char>) -> Option<u16> {
        numparse::parse_u16_spec(text)
    }

    open spec fn type_label() -> Seq<char> {
        "u16"@
    }

    fn from_text(text: &str) -> (r: Option<u16>) {
        numparse::parse_u16(text)
    }

    fn label() -> (r: String) {
        String::from_str("u16")
    }
}

impl FromText for u32 {
    open spec fn parse_spec(text: Seq<char>) -> Option<u32> {
        numparse::parse_u32_spec(text)
    }

    open spec fn type_label() -> Seq<char> {
        "u32"@
    }

    fn from_text(text: &str) -> (r: Option<u32>) {
        numparse::parse_u32(text)
    }

    fn label() -> (r: String) {
        String::from_str("u32")
    }
}

impl FromText for u128 {
    open spec fn parse_spec(text: Seq<char>) -> Option<u128> {
        numparse::parse_u128_spec(text)
    }

    open spec fn type_label() -> Seq<char> {
        "u128"@
    }

    fn from_text(text: &str) -> (r: Option<u128>) {
        numparse::parse_u128(text)
    }

    fn label() -> (r: String) {
        String::from_str("u128")
    }
}

impl FromText for usize {
    open spec fn parse_spec(text: Seq<char>) -> Option<usize> {
        numparse::parse_usize_spec(text)
    }

    open spec fn type_label() -> Seq<char> {
        "usize"@
    }

    fn from_text(text: &str) -> (r: Option<usize>) {
        numparse::parse_usize(text)
    }

    fn label() -> (r: String) {
        String::from_str("usize")
    }
}

impl FromText for bool {
    open spec fn parse_spec(text: Seq<char>) -> Option<bool> {
        numparse::parse_bool_spec(text)
    }

    open spec fn type_label() -> Seq<char> {
        "bool"@
    }

    fn from_text(text: &str) -> (r: Option<bool>) {
        numparse::parse_bool(text)
    }

    fn label() -> (r: String) {
        String::from_str("bool")
    }
}

/// All the given texts parsed as `T`, in order, or nothing when any one of
/// them does not parse.
pub open spec fn parse_all<T: FromText>(texts: Seq<Seq<char>>) -> Option<Seq<T::V>>
    decreases texts.len(),
{
    if texts.len() == 0 {
        Some(Seq::empty())
    } else {
        match (parse_all::<T>(texts.drop_last()), T::parse_spec(texts.last())) {
            (Some(rest), Some(v)) => Some(rest.push(v)),
            _ => None,
        }
    }
}

// One unparseable text makes the whole parse fail.
proof fn lemma_parse_all_none_at<T: FromText>(texts: Seq<Seq<char>>, j: int)
    requires
        0 <= j < texts.len(),
        T::parse_spec(texts[j]) is None,
    ensures
        parse_all::<T>(texts) is None,
    decreases texts.len(),
{
    if j < texts.len() - 1 {
        assert(texts.drop_last()[j] == texts[j]);
        lemma_parse_all_none_at::<T>(texts.drop_last(), j);
    }
}

// The text matches of a prefix of the field list are a prefix of the text
// matches of the whole list.
proof fn lemma_text_matches_prefix(fields: Seq<FieldModel>, name: Seq<char>, k: int)
    requires
        0 <= k <= fields.len(),
    ensures
        text_matches(fields.take(k), name).len() <= text_matches(fields, name).len(),
        text_matches(fields.take(k), name) == text_matches(fields, name).take(
            text_matches(fields.take(k), name).len() as int,
        ),
    decreases fields.len(),
{
    if k == fields.len() {
        assert(fields.take(k) =~= fields);
        assert(text_matches(fields, name).take(text_matches(fields, name).len() as int)
            =~= text_matches(fields, name));
    } else {
        let t = fields.drop_last();
        assert(fields.take(k) =~= t.take(k));
        lemma_text_matches_prefix(t, name, k);
        let short = text_matches(t.take(k), name);
        assert(text_matches(t, name).take(short.len() as int) =~= text_matches(fields, name).take(
            short.len() as int,
        ));
    }
}

// A failing prefix already makes the parse of the longer list fail.
proof fn lemma_parse_all_prefix_none<T: FromText>(texts: Seq<Seq<char>>, k: int)
    requires
        0 <= k <= texts.len(),
        parse_all::<T>(texts.take(k)) is None,
    ensures
        parse_all::<T>(texts) is None,
    decreases texts.len(),
{
    if k == texts.len() {
        assert(texts.take(k) =~= texts);
    } else {
        assert(texts.take(k) =~= texts.drop_last().take(k));
        lemma_parse_all_prefix_none::<T>(texts.drop_last(), k);
    }
}

// Collects and parses the values of every text field named `field_name`,
// in order, failing on the first value that does not parse.
fn get_all_text<F, T: FromText>(form: &Multiparts<F>, field_name: &str) -> (r: Result<
    Vec<T>,
    GetError,
>)
    ensures
        match r {
            Ok(vs) => parse_all::<T>(text_matches(form.deep_view(), field_name@)) == Some(
                vs.deep_view(),
            ),
            Err(e) => parse_all::<T>(text_matches(form.deep_view(), field_name@)) is None && e@
                == GetErrorModel::TypeError(field_name@, T::type_label()),
        },
{
    let ghost fm = form.deep_view();
    let key: String = field_name.to_owned();
    let mut out: Vec<T> = Vec::new();
    let n = form.len();
    let mut i: usize = 0;
    proof {
        assert(fm.take(0) =~= Seq::<FieldModel>::empty());
    }
    while i < n
        invariant
            i <= n,
            n == form@.len(),
            fm == form.deep_view(),
            key@ == field_name@,
            parse_all::<T>(text_matches(fm.take(i as int), field_name@)) == Some(out.deep_view()),
        decreases n - i,
    {
        let ghost out0 = out.deep_view();
        let ghost ms = text_matches(fm.take(i as int), field_name@);
        proof {
            assert(fm[i as int] == form@[i as int].deep_view());
            assert(fm.take(i as int + 1).drop_last() =~= fm.take(i as int));
            assert(fm.take(i as int + 1).last() == fm[i as int]);
        }
        match &form[i] {
            MultipartField::Text(t) => {
                if !(t.name == key) {
                    proof {
                        assert(text_matches(fm.take(i as int + 1), field_name@) == ms);
                    }
                }
                if t.name == key {
                    match T::from_text(t.text.as_str()) {
                        Some(v) => {
                            out.push(v);
                            proof {
                                assert(out.deep_view() =~= out0.push(v.deep_view()));
                                assert(text_matches(fm.take(i as int + 1), field_name@) == ms.push(
                                    t.text@,
                                ));
                                assert(ms.push(t.text@).drop_last() =~= ms);
                            }
                        },
                        None => {
                            proof {
                                let whole = text_matches(fm, field_name@);
                                let extended = text_matches(fm.take(i as int + 1), field_name@);
                                assert(extended == ms.push(t.text@));
                                assert(extended[extended.len() - 1] == t.text@);
                                lemma_text_matches_prefix(fm, field_name@, i as int + 1);
                                assert(whole.take(extended.len() as int) == extended);
                                assert(whole.take(extended.len() as int)[extended.len() - 1]
                                    == whole[extended.len() - 1]);
                                lemma_parse_all_none_at::<T>(whole, extended.len() - 1);
                            }
                            return Err(
                                GetError::TypeError(field_name.to_owned(), T::label()),
                            );
                        },
                    }
                }
            },
            MultipartField::File(_) => {
                proof {
                    assert(text_matches(fm.take(i as int + 1), field_name@) == ms);
                }
            },
        }
        i = i + 1;
    }
    proof {
        assert(fm.take(n as int) =~= fm);
    }
    Ok(out)
}

// Takes every file field named `field_name` out of the form, in order,
// leaving the other fields in place.
fn take_files<F>(form: &mut Multiparts<F>, field_name: &str) -> (r: Vec<MultipartFile<F>>)
    ensures
        final(form).deep_view() == remove_file_matches(old(form).deep_view(), field_name@),
        r.deep_view() == file_matches(old(form).deep_view(), field_name@),
{
    let ghost fm = old(form).deep_view();
    let key: String = field_name.to_owned();
    let mut items: Multiparts<F> = Vec::new();
    core::mem::swap(form, &mut items);
    let mut taken: Vec<MultipartFile<F>> = Vec::new();
    let n = items.len();
    let mut i: usize = 0;
    proof {
        assert(fm.take(0) =~= Seq::<FieldModel>::empty());
        assert(fm.skip(0) =~= fm);
        assert(items.deep_view() =~= fm);
    }
    while i < n
        invariant
            i <= n,
            n == fm.len(),
            key@ == field_name@,
            items.deep_view() == fm.skip(i as int),
            form.deep_view() == remove_file_matches(fm.take(i as int), field_name@),
            taken.deep_view() == file_matches(fm.take(i as int), field_name@),
        decreases n - i,
    {
        let ghost kept0 = form.deep_view();
        let ghost taken0 = taken.deep_view();
        let ghost items0 = items.deep_view();
        proof {
            assert(fm.skip(i as int).len() == n - i);
        }
        let item = items.remove(0);
        proof {
            assert(items.deep_view() =~= items0.skip(1));
            assert(items0.skip(1) =~= fm.skip(i as int + 1));
            assert(item.deep_view() == items0[0]);
            assert(item.deep_view() == fm[i as int]);
            assert(fm.take(i as int + 1).drop_last() =~= fm.take(i as int));
            assert(fm.take(i as int + 1).last() == fm[i as int]);
        }
        match item {
            MultipartField::File(f) => {
                if f.name == key {
                    taken.push(f);
                    proof {
                        assert(taken.deep_view() =~= taken0.push(fm[i as int]->File_0));
                    }
                } else {
                    form.push(MultipartField::File(f));
                    proof {
                        assert(form.deep_view() =~= kept0.push(fm[i as int]));
                    }
                }
            },
            MultipartField::Text(t) => {
                form.push(MultipartField::Text(t));
                proof {
                    assert(form.deep_view() =~= kept0.push(fm[i as int]));
                }
            },
        }
        i = i + 1;
    }
    proof {
        assert(fm.take(n as int) =~= fm);
    }
    taken
}

// Counts the file fields named `field_name` without touching the form.
fn count_files<F>(form: &Multiparts<F>, field_name: &str) -> (r: usize)
    ensures
        r == file_matches(form.deep_view(), field_name@).len(),
{
    let ghost fm = form.deep_view();
    let key: String = field_name.to_owned();
    let mut count: usize = 0;
    let n = form.len();
    let mut i: usize = 0;
    proof {
        assert(fm.take(0) =~= Seq::<FieldModel>::empty());
    }
    while i < n
        invariant
            i <= n,
            n == form@.len(),
            fm == form.deep_view(),
            key@ == field_name@,
            count == file_matches(fm.take(i as int), field_name@).len(),
            count <= i,
        decreases n - i,
    {
        proof {
            assert(fm[i as int] == form@[i as int].deep_view());
            assert(fm.take(i as int + 1).drop_last() =~= fm.take(i as int));
            assert(fm.take(i as int + 1).last() == fm[i as int]);
        }
        match &form[i] {
            MultipartField::File(f) => {
                if f.name == key {
                    count = count + 1;
                }
            },
            MultipartField::Text(_) => {},
        }
        i = i + 1;
    }
    proof {
        assert(fm.take(n as int) =~= fm);
    }
    count
}

/// Extracting the file fields of a name leaves no file field of that name
/// behind: a second extraction for the same name on the remaining list
/// finds nothing, so the same file can never be claimed twice.
pub proof fn lemma_file_extraction_exclusive(fields: Seq<FieldModel>, name: Seq<char>)
    ensures
        file_matches(remove_file_matches(fields, name), name) == Seq::<FileModel>::empty(),
    decreases fields.len(),
{
    if fields.len() > 0 {
        let rest = remove_file_matches(fields.drop_last(), name);
        lemma_file_extraction_exclusive(fields.drop_last(), name);
        match fields.last() {
            FieldModel::File(f) => {
                if f.name != name {
                    assert(rest.push(fields.last()).drop_last() =~= rest);
                }
            },
            FieldModel::Text(_) => {
                assert(rest.push(fields.last()).drop_last() =~= rest);
            },
        }
    }
}

/// What an exactly-one text extraction returns: all matching texts are
/// parsed, a failing parse names the type, and otherwise no match, one
/// match, and several matches yield the not-found error, the value, and
/// the duplicate-field error in turn.
pub open spec fn one_text_result<T: FromText>(fields: Seq<FieldModel>, name: Seq<char>) -> Result<
    T::V,
    GetErrorModel,
> {
    match parse_all::<T>(text_matches(fields, name)) {
        None => Err(GetErrorModel::TypeError(name, T::type_label())),
        Some(vs) => if vs.len() == 0 {
            Err(GetErrorModel::NotFound(name))
        } else if vs.len() == 1 {
            Ok(vs[0])
        } else {
            Err(GetErrorModel::DuplicateField(name))
        },
    }
}

/// What a zero-or-one text extraction returns.
pub open spec fn opt_text_result<T: FromText>(fields: Seq<FieldModel>, name: Seq<char>) -> Result<
    Option<T::V>,
    GetErrorModel,
> {
    match parse_all::<T>(text_matches(fields, name)) {
        None => Err(GetErrorModel::TypeError(name, T::type_label())),
        Some(vs) => if vs.len() == 0 {
            Ok(None)
        } else if vs.len() == 1 {
            Ok(Some(vs[0]))
        } else {
            Err(GetErrorModel::DuplicateField(name))
        },
    }
}

/// What a many text extraction returns: every match in order, never a
/// cardinality error.
pub open spec fn many_text_result<T: FromText>(fields: Seq<FieldModel>, name: Seq<char>) -> Result<
    Seq<T::V>,
    GetErrorModel,
> {
    match parse_all::<T>(text_matches(fields, name)) {
        None => Err(GetErrorModel::TypeError(name, T::type_label())),
        Some(vs) => Ok(vs),
    }
}

/// What an exactly-one file extraction returns, by the number of file
/// fields that match.
pub open spec fn one_file_result(fields: Seq<FieldModel>, name: Seq<char>) -> Result<
    FileModel,
    GetErrorModel,
> {
    let fs = file_matches(fields, name);
    if fs.len() == 0 {
        Err(GetErrorModel::NotFound(name))
    } else if fs.len() == 1 {
        Ok(fs[0])
    } else {
        Err(GetErrorModel::DuplicateField(name))
    }
}

/// What a zero-or-one file extraction returns.
pub open spec fn opt_file_result(fields: Seq<FieldModel>, name: Seq<char>) -> Result<
    Option<FileModel>,
    GetErrorModel,
> {
    let fs = file_matches(fields, name);
    if fs.len() == 0 {
        Ok(None)
    } else if fs.len() == 1 {
        Ok(Some(fs[0]))
    } else {
        Err(GetErrorModel::DuplicateField(name))
    }
}

/// Retrieval of exactly one named field from a multipart form, of the
/// implementing type; `F` is the backing-store payload of the form's file
/// fields.
pub trait MultipartType<F>: Sized + DeepView {
    /// What `get` returns for a given field list and name.
    spec fn get_result(fields: Seq<FieldModel>, name: Seq<char>) -> Result<Self::V, GetErrorModel>;

    /// The field list `get` leaves behind.
    spec fn fields_after_get(fields: Seq<FieldModel>, name: Seq<char>) -> Seq<FieldModel>;

    /// Retrieves the value of the named field: exactly one field of the
    /// requested kind must match the name.
    fn get(form: &mut Multiparts<F>, field_name: &str) -> (r: Result<Self, GetError>)
        ensures
            final(form).deep_view() == Self::fields_after_get(old(form).deep_view(), field_name@),
            match (r, Self::get_result(old(form).deep_view(), field_name@)) {
                (Ok(v), Ok(m)) => v.deep_view() == m,
                (Err(e), Err(em)) => e@ == em,
                _ => false,
            },
    ;
}

/// Retrieval of a named field with zero-or-one or many cardinality, for
/// `Option` and `Vec` of the scalar types and of files.
pub trait MultipartTypeSpecial<F>: Sized + DeepView {
    /// What `get` returns for a given field list and name.
    spec fn get_result(fields: Seq<FieldModel>, name: Seq<char>) -> Result<Self::V, GetErrorModel>;

    /// The field list `get` leaves behind.
    spec fn fields_after_get(fields: Seq<FieldModel>, name: Seq<char>) -> Seq<FieldModel>;

    /// Retrieves the values of the named field at the cardinality of the
    /// implementing type.
    fn get(form: &mut Multiparts<F>, field_name: &str) -> (r: Result<Self, GetError>)
        ensures
            final(form).deep_view() == Self::fields_after_get(old(form).deep_view(), field_name@),
            match (r, Self::get_result(old(form).deep_view(), field_name@)) {
                (Ok(v), Ok(m)) => v.deep_view() == m,
                (Err(e), Err(em)) => e@ == em,
                _ => false,
            },
    ;
}

impl<F, T: FromText> MultipartType<F> for T {
    open spec fn get_result(fields: Seq<FieldModel>, name: Seq<char>) -> Result<
        T::V,
        GetErrorModel,
    > {
        one_text_result::<T>(fields, name)
    }

    open spec fn fields_after_get(fields: Seq<FieldModel>, name: Seq<char>) -> Seq<FieldModel> {
        fields
    }

    fn get(form: &mut Multiparts<F>, field_name: &str) -> (r: Result<T, GetError>) {
        match get_all_text::<F, T>(form, field_name) {
            Err(e) => Err(e),
            Ok(mut vs) => {
                if vs.len() == 0 {
                    Err(GetError::NotFound(field_name.to_owned()))
                } else if vs.len() == 1 {
                    let v = vs.pop().unwrap();
                    proof {
                        assert(v.deep_view() == vs.deep_view().push(v.deep_view())[0]);
                    }
                    Ok(v)
                } else {
                    Err(GetError::DuplicateField(field_name.to_owned()))
                }
            },
        }
    }
}

impl<F, T: FromText> MultipartTypeSpecial<F> for Option<T> {
    open spec fn get_result(fields: Seq<FieldModel>, name: Seq<char>) -> Result<
        Option<T::V>,
        GetErrorModel,
    > {
        opt_text_result::<T>(fields, name)
    }

    open spec fn fields_after_get(fields: Seq<FieldModel>, name: Seq<char>) -> Seq<FieldModel> {
        fields
    }

    fn get(form: &mut Multiparts<F>, field_name: &str) -> (r: Result<Option<T>, GetError>) {
        match get_all_text::<F, T>(form, field_name) {
            Err(e) => Err(e),
            Ok(mut vs) => {
                if vs.len() == 0 {
                    Ok(None)
                } else if vs.len() == 1 {
                    let v = vs.pop().unwrap();
                    proof {
                        assert(v.deep_view() == vs.deep_view().push(v.deep_view())[0]);
                    }
                    Ok(Some(v))
                } else {
                    Err(GetError::DuplicateField(field_name.to_owned()))
                }
            },
        }
    }
}

impl<F, T: FromText> MultipartTypeSpecial<F> for Vec<T> {
    open spec fn get_result(fields: Seq<FieldModel>, name: Seq<char>) -> Result<
        Seq<T::V>,
        GetErrorModel,
    > {
        many_text_result::<T>(fields, name)
    }

    open spec fn fields_after_get(fields: Seq<FieldModel>, name: Seq<char>) -> Seq<FieldModel> {
        fields
    }

    fn get(form: &mut Multiparts<F>, field_name: &str) -> (r: Result<Vec<T>, GetError>) {
        get_all_text::<F, T>(form, field_name)
    }
}

impl<F> MultipartType<F> for MultipartFile<F> {
    open spec fn get_result(fields: Seq<FieldModel>, name: Seq<char>) -> Result<
        FileModel,
        GetErrorModel,
    > {
        one_file_result(fields, name)
    }

    /// The matched file is removed only when extraction succeeds: a failed
    /// cardinality check leaves the form exactly as it was, so no file is
    /// lost to an error.
    open spec fn fields_after_get(fields: Seq<FieldModel>, name: Seq<char>) -> Seq<FieldModel> {
        if file_matches(fields, name).len() == 1 {
            remove_file_matches(fields, name)
        } else {
            fields
        }
    }

    fn get(form: &mut Multiparts<F>, field_name: &str) -> (r: Result<MultipartFile<F>, GetError>) {
        let k = count_files(form, field_name);
        if k == 0 {
            Err(GetError::NotFound(field_name.to_owned()))
        } else if k == 1 {
            let mut fs = take_files(form, field_name);
            let f = fs.pop().unwrap();
            proof {
                assert(f.deep_view() == fs.deep_view().push(f.deep_view())[0]);
            }
            Ok(f)
        } else {
            Err(GetError::DuplicateField(field_name.to_owned()))
        }
    }
}

impl<F> MultipartTypeSpecial<F> for Option<MultipartFile<F>> {
    open spec fn get_result(fields: Seq<FieldModel>, name: Seq<char>) -> Result<
        Option<FileModel>,
        GetErrorModel,
    > {
        opt_file_result(fields, name)
    }

    /// The matched file is removed only when one was extracted: an absent
    /// field succeeds without touching the form, and a failed cardinality
    /// check leaves it exactly as it was.
    open spec fn fields_after_get(fields: Seq<FieldModel>, name: Seq<char>) -> Seq<FieldModel> {
        if file_matches(fields, name).len() == 1 {
            remove_file_matches(fields, name)
        } else {
            fields
        }
    }

    fn get(form: &mut Multiparts<F>, field_name: &str) -> (r: Result<
        Option<MultipartFile<F>>,
        GetError,
    >) {
        let k = count_files(form, field_name);
        if k == 0 {
            Ok(None)
        } else if k == 1 {
            let mut fs = take_files(form, field_name);
            let f = fs.pop().unwrap();
            proof {
                assert(f.deep_view() == fs.deep_view().push(f.deep_view())[0]);
            }
            Ok(Some(f))
        } else {
            Err(GetError::DuplicateField(field_name.to_owned()))
        }
    }
}

impl<F> MultipartTypeSpecial<F> for Vec<MultipartFile<F>> {
    open spec fn get_result(fields: Seq<FieldModel>, name: Seq<char>) -> Result<
        Seq<FileModel>,
        GetErrorModel,
    > {
        Ok(file_matches(fields, name))
    }

    open spec fn fields_after_get(fields: Seq<FieldModel>, name: Seq<char>) -> Seq<FieldModel> {
        remove_file_matches(fields, name)
    }

    fn get(form: &mut Multiparts<F>, field_name: &str) -> (r: Result<
        Vec<MultipartFile<F>>,
        GetError,
    >) {
        Ok(take_files(form, field_name))
    }
}

/// The capability of building a whole record from a decoded form: the hook
/// of the struct-binding layer. An implementation extracts each declared
/// field of the record by name through [`MultipartType`] or
/// [`MultipartTypeSpecial`] in turn, and returns the first failing
/// extraction instead of any partial record.
pub trait FromMultipart<F>: Sized {
    /// Builds the record from the form, field by field, stopping at the
    /// first failure.
    fn from_multipart(form: &mut Multiparts<F>) -> Result<Self, GetError>;
}

} // verus!
