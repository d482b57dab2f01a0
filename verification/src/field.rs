//! The decoded representation of one multipart form: an ordered list of
//! fields, each either a text value or a materialized file upload.
//!
//! The backing store of a file upload is I/O state that this library never
//! opens or reads; it is carried as an opaque payload of type `F` (the
//! surrounding application uses a temporary-file handle there) and its
//! ownership moves with the field.

use vstd::prelude::*;
use vstd::string::StrSliceExecFns;

verus! {

/// The ghost description of a file field: everything the logic reads, with
/// the opaque backing store left out.
pub ghost struct FileModel {
    /// The name of the form field.
    pub name: Seq<char>,
    /// The client-reported original filename, if any.
    pub filename: Option<Seq<char>>,
    /// The declared content type.
    pub mime: Seq<char>,
    /// The number of bytes accepted into the backing store.
    pub size: u64,
}

/// The ghost description of a text field.
pub ghost struct TextModel {
    /// The name of the form field.
    pub name: Seq<char>,
    /// The decoded text.
    pub text: Seq<char>,
}

/// The ghost description of one decoded field.
pub ghost enum FieldModel {
    File(FileModel),
    Text(TextModel),
}

/// A file upload decoded from one body part.
///
/// A body part is treated as a file upload if its Content-Type header is set
/// to anything other than `text/plain`, or a `filename` is given in its
/// Content-Disposition header. The payload `file` is the backing store the
/// bytes were written to; it is opaque to this library.
#[derive(Debug)]
pub struct MultipartFile<F> {
    /// The backing store holding the file data, owned by this field.
    pub file: F,
    /// The size in bytes of the file.
    pub size: u64,
    /// The name of the field in the multipart form.
    pub name: String,
    /// The `filename` value in the `Content-Disposition` header.
    pub filename: Option<String>,
    /// The content type reported in the uploaded form; it is the client's
    /// claim and is not verified against the data.
    pub mime: String,
}

impl<F> View for MultipartFile<F> {
    type V = FileModel;

    open spec fn view(&self) -> FileModel {
        FileModel {
            name: self.name@,
            filename: self.filename.deep_view(),
            mime: self.mime@,
            size: self.size,
        }
    }
}

impl<F> DeepView for MultipartFile<F> {
    type V = FileModel;

    open spec fn deep_view(&self) -> FileModel {
        self.view()
    }
}

/// The start of the final path component of a client filename: the index
/// just after its last `/` separator, or the front when it has none.
pub open spec fn component_start(f: Seq<char>) -> int
    decreases f.len(),
{
    if f.len() == 0 {
        0
    } else if f.last() == '/' {
        f.len() as int
    } else {
        component_start(f.drop_last())
    }
}

/// The index of the last `.` of a client filename, or -1 when it has none.
pub open spec fn last_dot(f: Seq<char>) -> int
    decreases f.len(),
{
    if f.len() == 0 {
        -1
    } else if f.last() == '.' {
        f.len() - 1
    } else {
        last_dot(f.drop_last())
    }
}

/// A client filename with its trailing `/` separators and trailing `.`
/// path components removed, as a path lookup would ignore them when it
/// finds the final component.
pub open spec fn strip_trailing(f: Seq<char>) -> Seq<char>
    decreases f.len(),
{
    if f.len() > 0 && f.last() == '/' {
        strip_trailing(f.drop_last())
    } else if f.len() > 0 && f.last() == '.' && (f.len() == 1 || f[f.len() - 2] == '/') {
        strip_trailing(f.drop_last())
    } else {
        f
    }
}

/// True when the final path component of a stripped filename is `..`,
/// which names no file at all.
pub open spec fn ends_in_parent_dir(g: Seq<char>) -> bool {
    let start = component_start(g);
    &&& g.len() - start == 2
    &&& g[start] == '.'
    &&& g[start + 1] == '.'
}

/// The extension of a client filename: what follows the last dot of its
/// final path component, unless the component has no dot or begins with
/// its only dot. Trailing separators and trailing `.` components are
/// ignored, and a filename ending in a `..` component has no extension.
pub open spec fn extension_of(f: Seq<char>) -> Option<Seq<char>> {
    let g = strip_trailing(f);
    if !ends_in_parent_dir(g) && last_dot(g) > component_start(g) {
        Some(g.subrange(last_dot(g) + 1, g.len() as int))
    } else {
        None
    }
}

impl<F> MultipartFile<F> {
    /// The extension portion of the `filename` value in the
    /// `Content-Disposition` header, if one was reported and it has one.
    pub fn get_extension(&self) -> (r: Option<&str>)
        ensures
            match self@.filename {
                None => r is None,
                Some(f) => match extension_of(f) {
                    None => r is None,
                    Some(ext) => r matches Some(s) && s@ == ext,
                },
            },
    {
        let fs: &str = match &self.filename {
            Some(f) => f.as_str(),
            None => { return None },
        };
        let n = fs.unicode_len();

        // Find the end of the final path component by stepping over
        // trailing separators and trailing `.` components.
        let mut end: usize = n;
        proof {
            assert(fs@.take(n as int) =~= fs@);
        }
        loop
            invariant
                end <= n,
                n == fs@.len(),
                strip_trailing(fs@) == strip_trailing(fs@.take(end as int)),
            ensures
                end <= n,
                strip_trailing(fs@) == fs@.take(end as int),
            decreases end,
        {
            proof {
                if end > 0 {
                    assert(fs@.take(end as int).drop_last() =~= fs@.take(end as int - 1));
                    assert(fs@.take(end as int).last() == fs@[end as int - 1]);
                }
            }
            if end > 0 && fs.get_char(end - 1) == '/' {
                end = end - 1;
            } else if end > 0 && fs.get_char(end - 1) == '.' && (end == 1 || fs.get_char(end - 2)
                == '/') {
                proof {
                    if end >= 2 {
                        assert(fs@.take(end as int)[end as int - 2] == fs@[end as int - 2]);
                    }
                }
                end = end - 1;
            } else {
                proof {
                    if end == 0 {
                        assert(fs@.take(0) =~= Seq::<char>::empty());
                    } else {
                        if end >= 2 {
                            assert(fs@.take(end as int)[end as int - 2] == fs@[end as int - 2]);
                        }
                    }
                    assert(strip_trailing(fs@.take(end as int)) == fs@.take(end as int));
                }
                break;
            }
        }
        let ghost g = strip_trailing(fs@);
        proof {
            assert(g == fs@.take(end as int));
        }

        let mut start: usize = 0;
        let mut dot: usize = 0;
        let mut has_dot: bool = false;
        let mut i: usize = 0;
        proof {
            assert(fs@.take(0) =~= Seq::<char>::empty());
        }
        while i < end
            invariant
                i <= end,
                end <= n,
                n == fs@.len(),
                start <= i,
                component_start(fs@.take(i as int)) == start,
                last_dot(fs@.take(i as int)) == if has_dot {
                    dot as int
                } else {
                    -1
                },
                has_dot ==> dot < i,
            decreases end - i,
        {
            let c = fs.get_char(i);
            proof {
                assert(fs@.take(i as int + 1).drop_last() =~= fs@.take(i as int));
                assert(fs@.take(i as int + 1).last() == fs@[i as int]);
            }
            if c == '/' {
                start = i + 1;
            } else if c == '.' {
                dot = i;
                has_dot = true;
            }
            i = i + 1;
        }
        proof {
            assert(g =~= fs@.take(end as int));
        }
        let parent_dir = end - start == 2 && fs.get_char(start) == '.' && fs.get_char(start + 1)
            == '.';
        proof {
            if start < end {
                assert(g[start as int] == fs@[start as int]);
            }
            if start + 1 < end {
                assert(g[start as int + 1] == fs@[start as int + 1]);
            }
        }
        if !parent_dir && has_dot && dot > start {
            let s = fs.substring_char(dot + 1, end);
            proof {
                assert(s@ =~= g.subrange(dot as int + 1, g.len() as int));
            }
            Some(s)
        } else {
            None
        }
    }
}

/// A text field decoded from one body part.
///
/// A body part is treated as text if its Content-Type header is equal to
/// `text/plain` (or entirely absent, since `text/plain` is the default), and
/// no `filename` is given in its Content-Disposition header.
#[derive(Debug)]
pub struct MultipartText {
    /// The name of the field in the multipart form.
    pub name: String,
    /// The text body of the field.
    pub text: String,
}

impl View for MultipartText {
    type V = TextModel;

    open spec fn view(&self) -> TextModel {
        TextModel { name: self.name@, text: self.text@ }
    }
}

impl DeepView for MultipartText {
    type V = TextModel;

    open spec fn deep_view(&self) -> TextModel {
        self.view()
    }
}

/// One decoded field of a multipart form.
#[derive(Debug)]
pub enum MultipartField<F> {
    File(MultipartFile<F>),
    Text(MultipartText),
}

impl<F> View for MultipartField<F> {
    type V = FieldModel;

    open spec fn view(&self) -> FieldModel {
        match self {
            MultipartField::File(f) => FieldModel::File(f@),
            MultipartField::Text(t) => FieldModel::Text(t@),
        }
    }
}

impl<F> DeepView for MultipartField<F> {
    type V = FieldModel;

    open spec fn deep_view(&self) -> FieldModel {
        self.view()
    }
}

/// A decoded multipart form: the fields in the order their parts arrived.
pub type Multiparts<F> = Vec<MultipartField<F>>;

} // verus!
