//! Configuration options for loading a multipart form.

use vstd::prelude::*;

verus! {

/// Default text budget: 1 MiB.
pub const DEFAULT_TEXT_LIMIT: usize = 1048576;

/// Default file budget: 512 MiB.
pub const DEFAULT_FILE_LIMIT: u64 = 536870912;

/// Default maximum number of parts.
pub const DEFAULT_MAX_PARTS: usize = 1000;

/// Resource budgets applied while a multipart form is loaded: a total byte
/// budget for text parts, a total byte budget for file parts, and a cap on
/// the number of parts. The configuration is fixed for the whole of one
/// decode operation.
#[derive(Clone, Copy)]
pub struct MultipartLoadConfig {
    text_limit: usize,
    file_limit: u64,
    max_parts: usize,
}

impl MultipartLoadConfig {
    /// The total byte budget for text parts.
    pub closed spec fn spec_text_limit(self) -> usize {
        self.text_limit
    }

    /// The total byte budget for file parts.
    pub closed spec fn spec_file_limit(self) -> u64 {
        self.file_limit
    }

    /// The maximum number of parts a form may contain.
    pub closed spec fn spec_max_parts(self) -> usize {
        self.max_parts
    }

    /// Maximum total bytes of text (will be loaded into memory) - default 1 MiB
    pub fn text_limit(self, limit: usize) -> (r: Self)
        ensures
            r.spec_text_limit() == limit,
            r.spec_file_limit() == self.spec_file_limit(),
            r.spec_max_parts() == self.spec_max_parts(),
    {
        MultipartLoadConfig { text_limit: limit, ..self }
    }

    /// Maximum total bytes of file upload (will be written to temporary files) - default 512 MiB
    pub fn file_limit(self, limit: u64) -> (r: Self)
        ensures
            r.spec_text_limit() == self.spec_text_limit(),
            r.spec_file_limit() == limit,
            r.spec_max_parts() == self.spec_max_parts(),
    {
        MultipartLoadConfig { file_limit: limit, ..self }
    }

    /// Maximum parts the form may contain - default 1000
    pub fn max_parts(self, max: usize) -> (r: Self)
        ensures
            r.spec_text_limit() == self.spec_text_limit(),
            r.spec_file_limit() == self.spec_file_limit(),
            r.spec_max_parts() == max,
    {
        MultipartLoadConfig { max_parts: max, ..self }
    }

    /// Reads the configured text budget.
    pub fn get_text_limit(&self) -> (r: usize)
        ensures
            r == self.spec_text_limit(),
    {
        self.text_limit
    }

    /// Reads the configured file budget.
    pub fn get_file_limit(&self) -> (r: u64)
        ensures
            r == self.spec_file_limit(),
    {
        self.file_limit
    }

    /// Reads the configured part-count cap.
    pub fn get_max_parts(&self) -> (r: usize)
        ensures
            r == self.spec_max_parts(),
    {
        self.max_parts
    }
}

impl Default for MultipartLoadConfig {
    /// The default budgets: 1 MiB of text, 512 MiB of files, 1000 parts.
    fn default() -> (r: Self)
        ensures
            r.spec_text_limit() == DEFAULT_TEXT_LIMIT,
            r.spec_file_limit() == DEFAULT_FILE_LIMIT,
            r.spec_max_parts() == DEFAULT_MAX_PARTS,
    {
        MultipartLoadConfig {
            text_limit: DEFAULT_TEXT_LIMIT,
            file_limit: DEFAULT_FILE_LIMIT,
            max_parts: DEFAULT_MAX_PARTS,
        }
    }
}

} // verus!
