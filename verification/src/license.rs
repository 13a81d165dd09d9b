use vstd::prelude::*;
use crate::text::{owned, strings_view};

verus! {

/// The limits of a product tier. `None` means unlimited; no list of allowed
/// PII types means every type is allowed.
#[derive(Debug)]
pub struct VersionLimits {
    pub max_file_size_bytes: Option<u64>,
    pub max_rows_per_file: Option<usize>,
    pub max_files_per_batch: Option<usize>,
    pub max_cells_per_file: Option<usize>,
    pub allowed_pii_types: Option<Vec<String>>,
    pub allows_batch_download: bool,
    pub allows_xlsx_export: bool,
    pub version_name: String,
    pub is_trial: bool,
}

/// Why a limit refused a request.
#[derive(Debug)]
#[allow(inconsistent_fields)]
pub enum LimitError {
    FileTooLarge { size: u64, max: u64 },
    TooManyRows { count: usize, max: usize },
    TooManyFiles { count: usize, max: usize },
    TooManyCells { count: usize, max: usize },
    PiiTypeNotAllowed { pii_type: String },
    FeatureNotAvailable { feature: String },
}

/// The PII type ids the Lite tier allows.
pub open spec fn lite_pii_types() -> Seq<Seq<char>> {
    seq!["email"@, "phone"@, "ssn"@, "credit_card"@]
}

/// The Lite tier: 5 MB files, 10,000 rows, 100,000 cells, 3 files per
/// batch, e-mail, phone, SSN and credit card detection only, no batch
/// download and no XLSX export.
pub open spec fn is_lite(l: VersionLimits) -> bool {
    &&& l.max_file_size_bytes == Some(5242880u64)
    &&& l.max_rows_per_file == Some(10000usize)
    &&& l.max_files_per_batch == Some(3usize)
    &&& l.max_cells_per_file == Some(100000usize)
    &&& l.allowed_pii_types matches Some(v) && strings_view(v@) == lite_pii_types()
    &&& !l.allows_batch_download
    &&& !l.allows_xlsx_export
    &&& l.version_name@ == "Rusty Scrubber Lite"@
    &&& l.is_trial
}

/// The Pro tier: no limits.
pub open spec fn is_pro(l: VersionLimits) -> bool {
    &&& l.max_file_size_bytes is None
    &&& l.max_rows_per_file is None
    &&& l.max_files_per_batch is None
    &&& l.max_cells_per_file is None
    &&& l.allowed_pii_types is None
    &&& l.allows_batch_download
    &&& l.allows_xlsx_export
    &&& l.version_name@ == "Rusty Scrubber Pro"@
    &&& !l.is_trial
}

impl VersionLimits {
    /// The tier this build runs as: Lite, the tier of a build that names
    /// no tier.
    pub fn current() -> (l: Self)
        ensures
            is_lite(l),
    {
        Self::lite()
    }

    pub fn lite() -> (l: Self)
        ensures
            is_lite(l),
    {
        let mut allowed: Vec<String> = Vec::new();
        allowed.push(owned("email"));
        allowed.push(owned("phone"));
        allowed.push(owned("ssn"));
        allowed.push(owned("credit_card"));
        proof {
            assert(strings_view(allowed@) =~= lite_pii_types());
        }
        VersionLimits {
            max_file_size_bytes: Some(5 * 1024 * 1024),
            max_rows_per_file: Some(10000),
            max_files_per_batch: Some(3),
            max_cells_per_file: Some(100000),
            allowed_pii_types: Some(allowed),
            allows_batch_download: false,
            allows_xlsx_export: false,
            version_name: owned("Rusty Scrubber Lite"),
            is_trial: true,
        }
    }

    pub fn pro() -> (l: Self)
        ensures
            is_pro(l),
    {
        VersionLimits {
            max_file_size_bytes: None,
            max_rows_per_file: None,
            max_files_per_batch: None,
            max_cells_per_file: None,
            allowed_pii_types: None,
            allows_batch_download: true,
            allows_xlsx_export: true,
            version_name: owned("Rusty Scrubber Pro"),
            is_trial: false,
        }
    }

    /// A file of `size_bytes` is refused when it exceeds the size limit.
    pub fn check_file_size(&self, size_bytes: u64) -> (r: Result<(), LimitError>)
        ensures
            r is Ok <==> file_size_allowed(*self, size_bytes),
            match self.max_file_size_bytes {
                Some(max) => if size_bytes > max {
                    r == Err::<(), LimitError>(LimitError::FileTooLarge { size: size_bytes, max })
                } else {
                    r is Ok
                },
                None => r is Ok,
            },
    {
        if let Some(max) = self.max_file_size_bytes {
            if size_bytes > max {
                return Err(LimitError::FileTooLarge { size: size_bytes, max });
            }
        }
        Ok(())
    }

    /// A file of `rows` rows is refused when it exceeds the row limit.
    pub fn check_row_count(&self, rows: usize) -> (r: Result<(), LimitError>)
        ensures
            r is Ok <==> row_count_allowed(*self, rows),
            match self.max_rows_per_file {
                Some(max) => if rows > max {
                    r == Err::<(), LimitError>(LimitError::TooManyRows { count: rows, max })
                } else {
                    r is Ok
                },
                None => r is Ok,
            },
    {
        if let Some(max) = self.max_rows_per_file {
            if rows > max {
                return Err(LimitError::TooManyRows { count: rows, max });
            }
        }
        Ok(())
    }

    /// A batch of `count` files is refused when it exceeds the batch limit.
    pub fn check_batch_size(&self, count: usize) -> (r: Result<(), LimitError>)
        ensures
            r is Ok <==> batch_size_allowed(*self, count),
            match self.max_files_per_batch {
                Some(max) => if count > max {
                    r == Err::<(), LimitError>(LimitError::TooManyFiles { count, max })
                } else {
                    r is Ok
                },
                None => r is Ok,
            },
    {
        if let Some(max) = self.max_files_per_batch {
            if count > max {
                return Err(LimitError::TooManyFiles { count, max });
            }
        }
        Ok(())
    }
}

/// Whether the tier accepts a file of the given size.
pub open spec fn file_size_allowed(l: VersionLimits, size: u64) -> bool {
    match l.max_file_size_bytes {
        Some(max) => size <= max,
        None => true,
    }
}

/// Whether the tier accepts a file with the given number of rows.
pub open spec fn row_count_allowed(l: VersionLimits, rows: usize) -> bool {
    match l.max_rows_per_file {
        Some(max) => rows <= max,
        None => true,
    }
}

/// Whether the tier accepts a batch of the given number of files.
pub open spec fn batch_size_allowed(l: VersionLimits, count: usize) -> bool {
    match l.max_files_per_batch {
        Some(max) => count <= max,
        None => true,
    }
}

/// The Pro tier accepts every file size, row count and batch size; the Lite
/// tier accepts files up to 5 MB, up to 10,000 rows and up to 3 files per
/// batch.
pub proof fn law_tier_limits(l: VersionLimits, size: u64, rows: usize, count: usize)
    ensures
        is_pro(l) ==> file_size_allowed(l, size) && row_count_allowed(l, rows) && batch_size_allowed(l, count),
        is_lite(l) ==> (file_size_allowed(l, size) <==> size <= 5242880),
        is_lite(l) ==> (row_count_allowed(l, rows) <==> rows <= 10000),
        is_lite(l) ==> (batch_size_allowed(l, count) <==> count <= 3),
{
}

} // verus!
