use vstd::prelude::*;
use crate::files::{
    content_to_csv, csv_records, csv_written_of, extension_of_type, path_extension, path_extension_of, path_file_stem, path_file_stem_of, ContentView, FileContent,
    FileType,
};
use crate::streaming::ProcessingStats;
use crate::text::{substring, utf8_lossy, utf8_lossy_of};
use vstd::utf8::*;
use vstd::string::StringSliceAdditionalSpecFns;
use crate::license::{is_lite, lite_pii_types, LimitError, VersionLimits};
use crate::pii::PiiType;
use crate::scrub::ScrubMethod;
use crate::stats::ScrubStats;
use crate::text::{copy_strings, decimal_chars, lowercase_of, owned, push_decimal, str_eq, strings_view, to_lowercase};

verus! {

/// Files larger than this (10 MiB), if CSV or text, are processed piece by
/// piece.
pub const STREAMING_THRESHOLD: usize = 10485760;

/// A request to scrub a file.
#[derive(Debug)]
pub struct ProcessRequest {
    /// The file's bytes in base64.
    pub file_data: String,
    pub file_name: String,
    pub pii_types: Vec<String>,
    pub scrub_method: String,
}

/// The outcome of scrubbing a file.
#[derive(Debug)]
pub struct ProcessResult {
    pub success: bool,
    /// The scrubbed file's bytes in base64.
    pub scrubbed_data: Option<String>,
    pub scrubbed_preview: Option<String>,
    pub file_name: String,
    pub file_type: String,
    pub stats: ScrubStats,
    pub error: Option<String>,
    pub limit_warning: Option<String>,
    pub used_streaming: bool,
}

/// A PII type as the user interface lists it.
#[derive(Debug)]
pub struct PiiTypeInfo {
    pub id: String,
    pub name: String,
    pub description: String,
    pub available_in_lite: bool,
}

/// A file format the application reads.
#[derive(Debug)]
pub struct SupportedFormat {
    pub extension: String,
    pub name: String,
    pub mime_type: String,
}

/// The running tier and what it allows.
#[derive(Debug)]
pub struct AppVersionInfo {
    pub version_name: String,
    pub is_trial: bool,
    pub limits: VersionLimits,
    pub features: VersionFeatures,
}

/// The tier's limits as the user interface shows them.
#[derive(Debug)]
pub struct VersionFeatures {
    pub max_file_size_display: String,
    pub max_rows_display: String,
    pub max_files_display: String,
    pub available_pii_types: Vec<String>,
    pub all_pii_types: Vec<String>,
}

/// The scrub method a name (any case) stands for: Mask for unknown names.
pub open spec fn scrub_method_for(lower: Seq<char>) -> ScrubMethod {
    if lower == "remove"@ {
        ScrubMethod::Remove
    } else if lower == "hash"@ {
        ScrubMethod::Hash
    } else if lower == "fake"@ {
        ScrubMethod::Fake
    } else {
        ScrubMethod::Mask
    }
}

/// The scrub method named by `method`, compared in lower case; Mask when
/// the name is unknown.
pub fn parse_scrub_method(method: &str) -> (m: ScrubMethod)
    ensures
        m == scrub_method_for(lowercase_of(method@)),
{
    let lower = to_lowercase(method);
    if str_eq(lower.as_str(), "remove") {
        ScrubMethod::Remove
    } else if str_eq(lower.as_str(), "hash") {
        ScrubMethod::Hash
    } else if str_eq(lower.as_str(), "fake") {
        ScrubMethod::Fake
    } else {
        ScrubMethod::Mask
    }
}

/// The PII type a name (in lower case) stands for, with its aliases.
pub open spec fn pii_type_for(lower: Seq<char>) -> Option<PiiType> {
    if lower == "email"@ {
        Some(PiiType::Email)
    } else if lower == "phone"@ {
        Some(PiiType::Phone)
    } else if lower == "ssn"@ {
        Some(PiiType::SSN)
    } else if lower == "creditcard"@ || lower == "credit_card"@ {
        Some(PiiType::CreditCard)
    } else if lower == "ipaddress"@ || lower == "ip_address"@ || lower == "ip"@ {
        Some(PiiType::IPAddress)
    } else if lower == "dateofbirth"@ || lower == "date_of_birth"@ || lower == "dob"@ {
        Some(PiiType::DateOfBirth)
    } else if lower == "address"@ {
        Some(PiiType::Address)
    } else if lower == "name"@ {
        Some(PiiType::Name)
    } else if lower == "passport"@ {
        Some(PiiType::Passport)
    } else if lower == "driverslicense"@ || lower == "drivers_license"@ {
        Some(PiiType::DriversLicense)
    } else if lower == "bankaccount"@ || lower == "bank_account"@ {
        Some(PiiType::BankAccount)
    } else if lower == "organization"@ || lower == "org"@ {
        Some(PiiType::Organization)
    } else {
        None
    }
}

fn type_for_name(lower: &str) -> (t: Option<PiiType>)
    ensures
        t == pii_type_for(lower@),
{
    if str_eq(lower, "email") {
        Some(PiiType::Email)
    } else if str_eq(lower, "phone") {
        Some(PiiType::Phone)
    } else if str_eq(lower, "ssn") {
        Some(PiiType::SSN)
    } else if str_eq(lower, "creditcard") || str_eq(lower, "credit_card") {
        Some(PiiType::CreditCard)
    } else if str_eq(lower, "ipaddress") || str_eq(lower, "ip_address") || str_eq(lower, "ip") {
        Some(PiiType::IPAddress)
    } else if str_eq(lower, "dateofbirth") || str_eq(lower, "date_of_birth") || str_eq(lower, "dob") {
        Some(PiiType::DateOfBirth)
    } else if str_eq(lower, "address") {
        Some(PiiType::Address)
    } else if str_eq(lower, "name") {
        Some(PiiType::Name)
    } else if str_eq(lower, "passport") {
        Some(PiiType::Passport)
    } else if str_eq(lower, "driverslicense") || str_eq(lower, "drivers_license") {
        Some(PiiType::DriversLicense)
    } else if str_eq(lower, "bankaccount") || str_eq(lower, "bank_account") {
        Some(PiiType::BankAccount)
    } else if str_eq(lower, "organization") || str_eq(lower, "org") {
        Some(PiiType::Organization)
    } else {
        None
    }
}

/// The id of a PII type, as the tiers list their allowed types.
pub open spec fn type_id_of(p: PiiType) -> Seq<char> {
    match p {
        PiiType::Email => "email"@,
        PiiType::Phone => "phone"@,
        PiiType::SSN => "ssn"@,
        PiiType::CreditCard => "credit_card"@,
        PiiType::IPAddress => "ip_address"@,
        PiiType::DateOfBirth => "date_of_birth"@,
        PiiType::Address => "address"@,
        PiiType::Name => "name"@,
        PiiType::Passport => "passport"@,
        PiiType::DriversLicense => "drivers_license"@,
        PiiType::BankAccount => "bank_account"@,
        PiiType::Organization => "organization"@,
    }
}

/// The id of a PII type.
pub fn type_id(p: PiiType) -> (id: &'static str)
    ensures
        id@ == type_id_of(p),
{
    match p {
        PiiType::Email => "email",
        PiiType::Phone => "phone",
        PiiType::SSN => "ssn",
        PiiType::CreditCard => "credit_card",
        PiiType::IPAddress => "ip_address",
        PiiType::DateOfBirth => "date_of_birth",
        PiiType::Address => "address",
        PiiType::Name => "name",
        PiiType::Passport => "passport",
        PiiType::DriversLicense => "drivers_license",
        PiiType::BankAccount => "bank_account",
        PiiType::Organization => "organization",
    }
}

/// The PII type ids a tier allows; none listed when it allows every type.
pub open spec fn allowed_ids(limits: VersionLimits) -> Seq<Seq<char>> {
    match limits.allowed_pii_types {
        Some(v) => strings_view(v@),
        None => seq![],
    }
}

/// The message for a PII type the tier does not allow.
pub open spec fn type_not_allowed_message(t: Seq<char>) -> Seq<char> {
    "PII type '"@ + t + "' is not available in Lite version. Upgrade to Pro for all PII types."@
}

/// Reads the requested PII types in order, names matched in any case and
/// with their aliases: unknown names are skipped; on a trial tier, a name of
/// a type whose id is not among the allowed ids fails the whole request
/// with its message, which quotes the name as given.
pub open spec fn parsed_types(types: Seq<Seq<char>>, limits: VersionLimits) -> Result<Seq<PiiType>, Seq<char>>
    decreases types.len(),
{
    if types.len() == 0 {
        Ok(seq![])
    } else {
        match parsed_types(types.drop_last(), limits) {
            Err(e) => Err(e),
            Ok(v) => {
                let t = types.last();
                match pii_type_for(lowercase_of(t)) {
                    None => Ok(v),
                    Some(p) => if limits.is_trial && !allowed_ids(limits).contains(type_id_of(p)) {
                        Err(type_not_allowed_message(t))
                    } else {
                        Ok(v.push(p))
                    },
                }
            },
        }
    }
}

/// On a trial tier, every PII type a request yields has an id the tier
/// allows.
pub proof fn law_trial_tier_keeps_to_allowed_ids(types: Seq<Seq<char>>, limits: VersionLimits)
    requires
        limits.is_trial,
    ensures
        parsed_types(types, limits) matches Ok(v) ==> forall|k: int|
            0 <= k < v.len() ==> allowed_ids(limits).contains(type_id_of(#[trigger] v[k])),
    decreases types.len(),
{
    if types.len() > 0 {
        let rest = types.drop_last();
        law_trial_tier_keeps_to_allowed_ids(rest, limits);
        if let Ok(v) = parsed_types(types, limits) {
            let w = parsed_types(rest, limits)->Ok_0;
            assert forall|k: int| 0 <= k < v.len() implies allowed_ids(limits).contains(type_id_of(#[trigger] v[k])) by {
                if k < w.len() {
                    assert(v[k] == w[k]);
                }
            }
        }
    }
}

/// Whether `id` is one of `ids`.
fn contains_str(ids: &Vec<String>, id: &str) -> (found: bool)
    ensures
        found == strings_view(ids@).contains(id@),
{
    let mut i: usize = 0;
    while i < ids.len()
        invariant
            i <= ids.len(),
            forall|k: int| 0 <= k < i ==> ids@[k]@ != id@,
        decreases ids.len() - i,
    {
        if str_eq(ids[i].as_str(), id) {
            proof {
                assert(strings_view(ids@)[i as int] == id@);
            }
            return true;
        }
        i = i + 1;
    }
    proof {
        if strings_view(ids@).contains(id@) {
            let k = choose|k: int| 0 <= k < strings_view(ids@).len() && strings_view(ids@)[k] == id@;
            assert(ids@[k]@ == id@);
        }
    }
    false
}

/// The PII types a request names, checked against the tier.
pub fn parse_pii_types(types: &Vec<String>, limits: &VersionLimits) -> (r: Result<Vec<PiiType>, String>)
    ensures
        match (r, parsed_types(strings_view(types@), *limits)) {
            (Ok(v), Ok(w)) => v@ == w,
            (Err(e), Err(m)) => e@ == m,
            _ => false,
        },
{
    let empty: Vec<String> = Vec::new();
    let available = match &limits.allowed_pii_types {
        Some(v) => v,
        None => &empty,
    };
    proof {
        assert(strings_view(available@) =~= allowed_ids(*limits));
    }
    let mut result: Vec<PiiType> = Vec::new();
    let mut i: usize = 0;
    while i < types.len()
        invariant
            i <= types.len(),
            strings_view(available@) == allowed_ids(*limits),
            parsed_types(strings_view(types@).take(i as int), *limits) == Ok::<Seq<PiiType>, Seq<char>>(result@),
        decreases types.len() - i,
    {
        let t = types[i].as_str();
        proof {
            assert(strings_view(types@).take(i + 1).drop_last() =~= strings_view(types@).take(i as int));
            assert(strings_view(types@).take(i + 1).last() == t@);
        }
        let lower = to_lowercase(t);
        match type_for_name(lower.as_str()) {
            Some(p) => {
                if limits.is_trial && !contains_str(available, type_id(p)) {
                    let mut msg = owned("PII type '");
                    msg.append(t);
                    msg.append("' is not available in Lite version. Upgrade to Pro for all PII types.");
                    proof {
                        lemma_parsed_types_error(strings_view(types@), *limits, i + 1);
                    }
                    return Err(msg);
                }
                result.push(p);
            },
            None => {},
        }
        i = i + 1;
    }
    proof {
        assert(strings_view(types@).take(types.len() as int) =~= strings_view(types@));
    }
    Ok(result)
}

/// An error in a prefix is the error of the whole list.
proof fn lemma_parsed_types_error(types: Seq<Seq<char>>, limits: VersionLimits, n: int)
    requires
        0 <= n <= types.len(),
        parsed_types(types.take(n), limits) is Err,
    ensures
        parsed_types(types, limits) == parsed_types(types.take(n), limits),
    decreases types.len() - n,
{
    if n < types.len() {
        assert(types.take(n + 1).drop_last() =~= types.take(n));
        lemma_parsed_types_error(types, limits, n + 1);
    } else {
        assert(types.take(n) =~= types);
    }
}

/// The extension of the scrubbed file: that of the input file in lower case
/// ("csv" when it has none), with workbooks written as CSV.
pub open spec fn output_extension(input_name: Seq<char>) -> Seq<char> {
    let ext = match path_extension_of(input_name) {
        Some(e) => lowercase_of(e),
        None => lowercase_of("csv"@),
    };
    if ext == "xlsx"@ || ext == "xls"@ {
        "csv"@
    } else {
        ext
    }
}

/// The scrubbed file's name: the input file's stem ("output" when it has
/// none), "_scrubbed", and the output extension.
pub open spec fn output_filename(input_name: Seq<char>) -> Seq<char> {
    let stem = match path_file_stem_of(input_name) {
        Some(s) => s,
        None => "output"@,
    };
    stem + "_scrubbed."@ + output_extension(input_name)
}

/// The name of the scrubbed file for an input file name.
pub fn generate_output_filename(input_name: &str) -> (name: String)
    ensures
        name@ == output_filename(input_name@),
{
    let stem = match path_file_stem(input_name) {
        Some(s) => s,
        None => owned("output"),
    };
    let ext = match path_extension(input_name) {
        Some(e) => e,
        None => owned("csv"),
    };
    let lower = to_lowercase(ext.as_str());
    let mut name = stem;
    name.append("_scrubbed.");
    if str_eq(lower.as_str(), "xlsx") || str_eq(lower.as_str(), "xls") {
        name.append("csv");
    } else {
        name.append(lower.as_str());
    }
    name
}

/// The lower-case extension of a file name, "txt" when it has none.
pub open spec fn file_extension_of(filename: Seq<char>) -> Seq<char> {
    match path_extension_of(filename) {
        Some(e) => lowercase_of(e),
        None => lowercase_of("txt"@),
    }
}

/// The extension of a file name in lower case, "txt" when it has none.
pub fn get_file_extension(filename: &str) -> (ext: String)
    ensures
        ext@ == file_extension_of(filename@),
{
    let e = match path_extension(filename) {
        Some(e) => e,
        None => owned("txt"),
    };
    to_lowercase(e.as_str())
}

/// Whether a file is processed piece by piece: larger than the threshold
/// and a CSV or text file.
pub fn uses_streaming(size: usize, extension: &str) -> (b: bool)
    ensures
        b == (size > STREAMING_THRESHOLD && (extension@ == "csv"@ || extension@ == "txt"@)),
{
    size > STREAMING_THRESHOLD && (str_eq(extension, "csv") || str_eq(extension, "txt"))
}

/// The result of a request that failed: the error, nothing scrubbed.
pub fn make_error_result(file_name: String, file_type: &str, error: String) -> (r: ProcessResult)
    ensures
        !r.success,
        r.scrubbed_data is None,
        r.scrubbed_preview is None,
        r.file_name == file_name,
        r.file_type@ == file_type@,
        r.stats.total_pii_found == 0,
        r.stats.pii_by_type@.len() == 0,
        r.stats.rows_affected == 0,
        r.stats.rows_processed == 0,
        r.stats.cells_affected == 0,
        r.error == Some(error),
        r.limit_warning is None,
        !r.used_streaming,
{
    ProcessResult {
        success: false,
        scrubbed_data: None,
        scrubbed_preview: None,
        file_name,
        file_type: owned(file_type),
        stats: ScrubStats::default(),
        error: Some(error),
        limit_warning: None,
        used_streaming: false,
    }
}

/// How the user interface shows a size limit: whole mebibytes, or
/// "Unlimited".
pub open spec fn size_display(max: Option<u64>) -> Seq<char> {
    match max {
        Some(b) => decimal_chars((b / 1048576) as nat) + " MB"@,
        None => "Unlimited"@,
    }
}

/// How the user interface shows a count limit: the count and its unit, or
/// "Unlimited".
pub open spec fn count_display(max: Option<usize>, unit: Seq<char>) -> Seq<char> {
    match max {
        Some(n) => decimal_chars(n as nat) + unit,
        None => "Unlimited"@,
    }
}

/// The ids of the PII types the user interface offers.
pub open spec fn pii_type_ids() -> Seq<Seq<char>> {
    seq![
        "email"@,
        "phone"@,
        "ssn"@,
        "credit_card"@,
        "ip_address"@,
        "date_of_birth"@,
        "address"@,
        "name"@,
        "passport"@,
        "drivers_license"@,
        "bank_account"@,
        "organization"@,
    ]
}

/// A number followed by a unit, or "Unlimited" when there is no number.
fn limit_display(max: Option<u64>, unit: &str) -> (text: String)
    ensures
        text@ == match max {
            Some(n) => decimal_chars(n as nat) + unit@,
            None => "Unlimited"@,
        },
{
    match max {
        Some(n) => {
            let mut text = String::new();
            push_decimal(&mut text, n, 0);
            text.append(unit);
            text
        },
        None => owned("Unlimited"),
    }
}

/// The ids of the PII types the user interface offers, in order.
fn type_ids() -> (ids: Vec<String>)
    ensures
        strings_view(ids@) == pii_type_ids(),
{
    let ids = vec![
        owned("email"),
        owned("phone"),
        owned("ssn"),
        owned("credit_card"),
        owned("ip_address"),
        owned("date_of_birth"),
        owned("address"),
        owned("name"),
        owned("passport"),
        owned("drivers_license"),
        owned("bank_account"),
        owned("organization"),
    ];
    proof {
        assert(strings_view(ids@) =~= pii_type_ids());
    }
    ids
}

/// The running tier (Lite), its limits as the user interface shows them,
/// the PII type ids it allows and every id offered.
pub fn get_version_info() -> (info: AppVersionInfo)
    ensures
        is_lite(info.limits),
        info.version_name@ == info.limits.version_name@,
        info.is_trial == info.limits.is_trial,
        info.features.max_file_size_display@ == size_display(info.limits.max_file_size_bytes),
        info.features.max_rows_display@ == count_display(info.limits.max_rows_per_file, " rows"@),
        info.features.max_files_display@ == count_display(info.limits.max_files_per_batch, " files"@),
        strings_view(info.features.available_pii_types@) == allowed_ids(info.limits),
        strings_view(info.features.all_pii_types@) == pii_type_ids(),
{
    let limits = VersionLimits::current();
    let available_pii_types = match &limits.allowed_pii_types {
        Some(v) => copy_strings(v),
        None => Vec::new(),
    };
    proof {
        if limits.allowed_pii_types is None {
            assert(strings_view(available_pii_types@) =~= Seq::<Seq<char>>::empty());
        }
    }
    let max_file_size_display = match limits.max_file_size_bytes {
        Some(bytes) => limit_display(Some(bytes / 1048576), " MB"),
        None => limit_display(None, ""),
    };
    let max_rows_display = match limits.max_rows_per_file {
        Some(rows) => limit_display(Some(rows as u64), " rows"),
        None => limit_display(None, ""),
    };
    let max_files_display = match limits.max_files_per_batch {
        Some(files) => limit_display(Some(files as u64), " files"),
        None => limit_display(None, ""),
    };
    let features = VersionFeatures {
        max_file_size_display,
        max_rows_display,
        max_files_display,
        available_pii_types,
        all_pii_types: type_ids(),
    };
    AppVersionInfo { version_name: limits.version_name.clone(), is_trial: limits.is_trial, limits, features }
}

/// The first size over the limit refuses the batch.
pub open spec fn sizes_check(max_size: Option<u64>, sizes: Seq<u64>) -> Result<(), LimitError>
    decreases sizes.len(),
{
    if sizes.len() == 0 {
        Ok(())
    } else {
        match sizes_check(max_size, sizes.drop_last()) {
            Err(e) => Err(e),
            Ok(()) => match max_size {
                Some(m) => if sizes.last() > m {
                    Err(LimitError::FileTooLarge { size: sizes.last(), max: m })
                } else {
                    Ok(())
                },
                None => Ok(()),
            },
        }
    }
}

/// A batch is refused first for its number of files, then for the first
/// file over the size limit.
pub open spec fn files_check(max_files: Option<usize>, max_size: Option<u64>, sizes: Seq<u64>, count: usize) -> Result<
    (),
    LimitError,
> {
    match max_files {
        Some(m) => if count > m {
            Err(LimitError::TooManyFiles { count, max: m })
        } else {
            sizes_check(max_size, sizes)
        },
        None => sizes_check(max_size, sizes),
    }
}

/// Checks a batch of files against the running tier (Lite: at most 3
/// files of at most 5 MiB each).
pub fn validate_files(file_sizes: Vec<u64>, file_count: usize) -> (r: Result<(), LimitError>)
    ensures
        r == files_check(Some(3usize), Some(5242880u64), file_sizes@, file_count),
{
    let limits = VersionLimits::current();
    match limits.check_batch_size(file_count) {
        Err(e) => {
            return Err(e);
        },
        Ok(()) => {},
    }
    let mut i: usize = 0;
    while i < file_sizes.len()
        invariant
            i <= file_sizes.len(),
            is_lite(limits),
            file_count <= 3,
            sizes_check(Some(5242880u64), file_sizes@.take(i as int)) == Ok::<(), LimitError>(()),
        decreases file_sizes.len() - i,
    {
        proof {
            assert(file_sizes@.take(i + 1).drop_last() =~= file_sizes@.take(i as int));
        }
        match limits.check_file_size(file_sizes[i]) {
            Err(e) => {
                proof {
                    lemma_sizes_check_error(Some(5242880u64), file_sizes@, i + 1);
                }
                return Err(e);
            },
            Ok(()) => {},
        }
        i = i + 1;
    }
    proof {
        assert(file_sizes@.take(file_sizes.len() as int) =~= file_sizes@);
    }
    Ok(())
}

/// An error in a prefix is the error of the whole list.
proof fn lemma_sizes_check_error(max_size: Option<u64>, sizes: Seq<u64>, n: int)
    requires
        0 <= n <= sizes.len(),
        sizes_check(max_size, sizes.take(n)) is Err,
    ensures
        sizes_check(max_size, sizes) == sizes_check(max_size, sizes.take(n)),
    decreases sizes.len() - n,
{
    if n < sizes.len() {
        assert(sizes.take(n + 1).drop_last() =~= sizes.take(n));
        lemma_sizes_check_error(max_size, sizes, n + 1);
    } else {
        assert(sizes.take(n) =~= sizes);
    }
}

/// The formats the application reads: (extension, name, MIME type).
pub open spec fn format_table() -> Seq<(Seq<char>, Seq<char>, Seq<char>)> {
    seq![
        ("csv"@, "CSV (Comma-Separated Values)"@, "text/csv"@),
        ("xlsx"@, "Excel Workbook"@, "application/vnd.openxmlformats-officedocument.spreadsheetml.sheet"@),
        ("xls"@, "Excel 97-2003 Workbook"@, "application/vnd.ms-excel"@),
        ("txt"@, "Plain Text"@, "text/plain"@),
        ("json"@, "JSON"@, "application/json"@),
    ]
}

fn supported_format(extension: &str, name: &str, mime_type: &str) -> (f: SupportedFormat)
    ensures
        f.extension@ == extension@,
        f.name@ == name@,
        f.mime_type@ == mime_type@,
{
    SupportedFormat { extension: owned(extension), name: owned(name), mime_type: owned(mime_type) }
}

/// The formats the application reads, in the order of `format_table`.
pub fn get_supported_formats() -> (formats: Vec<SupportedFormat>)
    ensures
        formats.len() == format_table().len(),
        forall|i: int|
            0 <= i < formats.len() ==> (#[trigger] formats@[i]).extension@ == format_table()[i].0
                && formats@[i].name@ == format_table()[i].1 && formats@[i].mime_type@ == format_table()[i].2,
{
    let formats = vec![
        supported_format("csv", "CSV (Comma-Separated Values)", "text/csv"),
        supported_format(
            "xlsx",
            "Excel Workbook",
            "application/vnd.openxmlformats-officedocument.spreadsheetml.sheet",
        ),
        supported_format("xls", "Excel 97-2003 Workbook", "application/vnd.ms-excel"),
        supported_format("txt", "Plain Text", "text/plain"),
        supported_format("json", "JSON", "application/json"),
    ];
    formats
}

/// The PII types the user interface offers: (id, name, description).
pub open spec fn pii_type_table() -> Seq<(Seq<char>, Seq<char>, Seq<char>)> {
    seq![
        ("email"@, "Email Address"@, "Email addresses (e.g., john.doe@example.com)"@),
        ("phone"@, "Phone Number"@, "Phone numbers in various formats"@),
        ("ssn"@, "Social Security Number"@, "US Social Security Numbers (XXX-XX-XXXX)"@),
        ("credit_card"@, "Credit Card Number"@, "Credit/debit card numbers (Visa, MasterCard, Amex, etc.)"@),
        ("ip_address"@, "IP Address"@, "IPv4 addresses"@),
        ("date_of_birth"@, "Date of Birth"@, "Dates that may represent birth dates"@),
        ("address"@, "Street Address"@, "Physical street addresses"@),
        ("name"@, "Person Name"@, "Names with common titles (Mr., Mrs., Dr., etc.)"@),
        ("passport"@, "Passport Number"@, "Passport identification numbers"@),
        ("drivers_license"@, "Driver's License"@, "Driver's license numbers"@),
        ("bank_account"@, "Bank Account"@, "Bank account numbers"@),
        ("organization"@, "Organization Name"@, "Company and organization names"@),
    ]
}

fn type_info(limits: &VersionLimits, available: &Vec<String>, id: &str, name: &str, description: &str) -> (info:
    PiiTypeInfo)
    ensures
        info.id@ == id@,
        info.name@ == name@,
        info.description@ == description@,
        info.available_in_lite == (strings_view(available@).contains(id@) || !limits.is_trial),
{
    let listed = contains_str(available, id);
    PiiTypeInfo {
        id: owned(id),
        name: owned(name),
        description: owned(description),
        available_in_lite: listed || !limits.is_trial,
    }
}

/// The PII types the user interface offers, in the order of
/// `pii_type_table`; a type is available when the running tier (Lite)
/// allows its id, or when the tier is not a trial.
pub fn get_pii_types() -> (infos: Vec<PiiTypeInfo>)
    ensures
        infos.len() == pii_type_table().len(),
        forall|i: int|
            0 <= i < infos.len() ==> (#[trigger] infos@[i]).id@ == pii_type_table()[i].0 && infos@[i].name@
                == pii_type_table()[i].1 && infos@[i].description@ == pii_type_table()[i].2
                && infos@[i].available_in_lite == lite_pii_types().contains(pii_type_table()[i].0),
{
    let limits = VersionLimits::current();
    let empty: Vec<String> = Vec::new();
    let available = match &limits.allowed_pii_types {
        Some(v) => v,
        None => &empty,
    };
    proof {
        assert(strings_view(available@) =~= allowed_ids(limits));
    }
    let infos = vec![
        type_info(&limits, available, "email", "Email Address", "Email addresses (e.g., john.doe@example.com)"),
        type_info(&limits, available, "phone", "Phone Number", "Phone numbers in various formats"),
        type_info(&limits, available, "ssn", "Social Security Number", "US Social Security Numbers (XXX-XX-XXXX)"),
        type_info(
            &limits,
            available,
            "credit_card",
            "Credit Card Number",
            "Credit/debit card numbers (Visa, MasterCard, Amex, etc.)",
        ),
        type_info(&limits, available, "ip_address", "IP Address", "IPv4 addresses"),
        type_info(&limits, available, "date_of_birth", "Date of Birth", "Dates that may represent birth dates"),
        type_info(&limits, available, "address", "Street Address", "Physical street addresses"),
        type_info(&limits, available, "name", "Person Name", "Names with common titles (Mr., Mrs., Dr., etc.)"),
        type_info(&limits, available, "passport", "Passport Number", "Passport identification numbers"),
        type_info(&limits, available, "drivers_license", "Driver's License", "Driver's license numbers"),
        type_info(&limits, available, "bank_account", "Bank Account", "Bank account numbers"),
        type_info(&limits, available, "organization", "Organization Name", "Company and organization names"),
    ];
    proof {
        assert(allowed_ids(limits) == lite_pii_types());
        assert(limits.is_trial);
    }
    infos
}

// ---------------------------------------------------------------------------
// Base64
// ---------------------------------------------------------------------------


/// The character of a 6-bit value in the standard base64 alphabet
/// (RFC 4648): A-Z, a-z, 0-9, '+', '/'.
pub open spec fn base64_digit(n: int) -> char {
    if n < 26 {
        (65 + n) as char
    } else if n < 52 {
        (97 + n - 26) as char
    } else if n < 62 {
        (48 + n - 52) as char
    } else if n == 62 {
        '+'
    } else {
        '/'
    }
}

/// Standard base64 with padding (RFC 4648, section 4): each group of three
/// bytes becomes four characters; a last group of one or two bytes is
/// padded with '='.
pub open spec fn base64_of(data: Seq<u8>) -> Seq<char>
    decreases data.len(),
{
    if data.len() == 0 {
        seq![]
    } else {
        let b0 = data[0] as int;
        let b1 = if data.len() > 1 { data[1] as int } else { 0 };
        let b2 = if data.len() > 2 { data[2] as int } else { 0 };
        if data.len() == 1 {
            seq![base64_digit(b0 / 4), base64_digit((b0 % 4) * 16), '=', '=']
        } else if data.len() == 2 {
            seq![base64_digit(b0 / 4), base64_digit((b0 % 4) * 16 + b1 / 16), base64_digit((b1 % 16) * 4), '=']
        } else {
            seq![
                base64_digit(b0 / 4),
                base64_digit((b0 % 4) * 16 + b1 / 16),
                base64_digit((b1 % 16) * 4 + b2 / 64),
                base64_digit(b2 % 64),
            ] + base64_of(data.subrange(3, data.len() as int))
        }
    }
}

/// The length of the standard base64 text of `n` bytes.
pub open spec fn base64_len(n: nat) -> nat {
    (n / 3) * 4 + if n % 3 > 0 {
        4nat
    } else {
        0nat
    }
}

/// The base64 text of as many bytes as a vector can hold (at most
/// `isize::MAX`) has a length that fits in `usize`: the results above are
/// built for every output a process can hold.
pub proof fn law_vector_outputs_are_encodable(n: nat)
    requires
        n <= isize::MAX,
    ensures
        base64_len(n) <= usize::MAX,
{
    assert(usize::MAX == 2 * isize::MAX + 1) by {
        assert(isize::BITS == usize::BITS);
    }
    assert((n / 3) * 4 <= n + n / 3) by (nonlinear_arith);
    assert(n / 3 <= n);
}

/// Whether the base64 text of `n` bytes has a length that fits in `usize`.
fn base64_fits(n: usize) -> (fits: bool)
    ensures
        fits == (base64_len(n as nat) <= usize::MAX),
{
    let groups = n / 3;
    let extra: usize = if n % 3 > 0 {
        4
    } else {
        0
    };
    match groups.checked_mul(4) {
        Some(full) => full.checked_add(extra).is_some(),
        None => false,
    }
}

/// `Engine::encode` of base64's `STANDARD` engine: the standard alphabet
/// with padding, as the crate documents it. It panics when the length of the
/// text does not fit in `usize`, which the precondition leaves out.
#[verifier::external_body]
fn base64_encode(data: &[u8]) -> (text: String)
    requires
        base64_len(data@.len()) <= usize::MAX,
    ensures
        text@ == base64_of(data@),
{
    base64::Engine::encode(&base64::engine::general_purpose::STANDARD, data)
}

/// What `Engine::decode` of base64's `STANDARD` engine gives for a text:
/// the decoded bytes, or the message (`Display`) of the error with which it
/// refuses the text.
pub uninterp spec fn base64_decoded(text: Seq<char>) -> Result<Seq<u8>, Seq<char>>;

/// `Engine::decode` of base64's `STANDARD` engine, its error turned into its
/// message. Claimed: the named `base64_decoded` of the text. Which texts it
/// refuses (bad characters, length, padding, trailing bits), and with which
/// message, is left to the name.
#[verifier::external_body]
fn base64_decode(text: &str) -> (bytes: Result<Vec<u8>, String>)
    ensures
        match bytes {
            Ok(b) => base64_decoded(text@) == Ok::<Seq<u8>, Seq<char>>(b@),
            Err(m) => base64_decoded(text@) == Err::<Seq<u8>, Seq<char>>(m@),
        },
{
    base64::Engine::decode(&base64::engine::general_purpose::STANDARD, text).map_err(|e| e.to_string())
}

/// The bytes of a request's base64 file data, or the message of the
/// failure: "Failed to decode file data: " and the decoder's message.
pub fn decode_file_data(data: &str) -> (r: Result<Vec<u8>, String>)
    ensures
        match base64_decoded(data@) {
            Ok(b) => r matches Ok(v) && v@ == b,
            Err(reason) => r matches Err(m) && m@ == "Failed to decode file data: "@ + reason,
        },
{
    match base64_decode(data) {
        Ok(b) => Ok(b),
        Err(reason) => {
            let mut m = owned("Failed to decode file data: ");
            m.append(reason.as_str());
            Err(m)
        },
    }
}

// ---------------------------------------------------------------------------
// Results
// ---------------------------------------------------------------------------

/// The warning a trial tier adds to each result.
pub open spec fn lite_warning(limits: VersionLimits) -> Option<Seq<char>> {
    if limits.is_trial {
        Some("You're using Klaro Lite. Upgrade to Pro for unlimited file sizes and features."@)
    } else {
        None
    }
}

fn limit_warning(limits: &VersionLimits) -> (w: Option<String>)
    ensures
        match (w, lite_warning(*limits)) {
            (Some(a), Some(b)) => a@ == b,
            (None, None) => true,
            _ => false,
        },
{
    if limits.is_trial {
        Some(owned("You're using Klaro Lite. Upgrade to Pro for unlimited file sizes and features."))
    } else {
        None
    }
}

/// The preview of scrubbed output held in memory: the output when it has at
/// most 2000 bytes, else its first 2000 bytes and a note of its length in
/// bytes; `None` when byte 2000 falls inside a character.
pub open spec fn text_preview(data: Seq<char>) -> Option<Seq<char>> {
    let bytes = encode_utf8(data);
    if bytes.len() > 2000 {
        if is_char_boundary(bytes, 2000) {
            Some(
                decode_utf8(bytes.subrange(0, 2000)) + "...\n\n[Truncated - "@ + decimal_chars(bytes.len())
                    + " total characters]"@,
            )
        } else {
            None
        }
    } else {
        Some(data)
    }
}

/// The preview of scrubbed output held in memory.
pub fn make_text_preview(data: &str) -> (preview: Option<String>)
    ensures
        match (preview, text_preview(data@)) {
            (Some(a), Some(b)) => a@ == b,
            (None, None) => true,
            _ => false,
        },
{
    let n = data.as_bytes().len();
    if n > 2000 {
        if !data.is_char_boundary(2000) {
            return None;
        }
        proof {
            broadcast use group_utf8_lib;

            is_char_boundary_start_end_of_seq(data.spec_bytes());
        }
        let head = substring(data, 0, 2000);
        proof {
            broadcast use group_utf8_lib;

            assert(decode_utf8(head.spec_bytes()) == head@);
        }
        let mut text = owned(head);
        text.append("...\n\n[Truncated - ");
        push_decimal(&mut text, n as u64, 0);
        text.append(" total characters]");
        Some(text)
    } else {
        Some(owned(data))
    }
}

/// The text `content_to_csv` writes for a content, where it is known: the
/// text itself, or the CSV writer's bytes for a table when they are UTF-8.
pub open spec fn known_output(content: ContentView) -> Option<Seq<char>> {
    match content {
        ContentView::Text(t) => Some(t),
        ContentView::Tabular(t) => match csv_written_of(csv_records(t)) {
            Some(bytes) => if valid_utf8(bytes) {
                Some(decode_utf8(bytes))
            } else {
                None
            },
            None => None,
        },
    }
}

/// The result of a file processed in memory: on success the output (CSV for
/// tables, the text for text) in base64, its preview, the output file name,
/// the file type's extension, the statistics and, on a trial tier, the
/// warning; when the output cannot be written, the error result
/// "Failed to generate output: " and the writer's reason. `None` when the
/// preview would cut a character (byte 2000 inside one) or the base64 text
/// would be longer than `usize` can count.
pub fn in_memory_result(
    file_name: &str,
    file_type: FileType,
    content: &FileContent,
    stats: ScrubStats,
    limits: &VersionLimits,
) -> (r: Option<ProcessResult>)
    ensures
        match r {
            Some(res) => {
                &&& res.file_type@ == extension_of_type(file_type)
                &&& !res.used_streaming
                &&& res.success ==> {
                    &&& res.scrubbed_data matches Some(d) && res.scrubbed_preview matches Some(p)
                        && exists|out: Seq<char>|
                        {
                            &&& d@ == base64_of(encode_utf8(out))
                            &&& text_preview(out) == Some(p@)
                            &&& (known_output(content@) matches Some(k) ==> out == k)
                        }
                    &&& res.file_name@ == output_filename(file_name@)
                    &&& res.stats == stats
                    &&& res.error is None
                    &&& match (res.limit_warning, lite_warning(*limits)) {
                        (Some(a), Some(b)) => a@ == b,
                        (None, None) => true,
                        _ => false,
                    }
                }
                &&& !res.success ==> {
                    &&& known_output(content@) is None
                    &&& res.file_name@ == file_name@
                    &&& res.error matches Some(e) && exists|reason: Seq<char>|
                        e@ == "Failed to generate output: "@ + reason
                }
            },
            None => known_output(content@) matches Some(out) ==> (text_preview(out) is None || base64_len(
                encode_utf8(out).len(),
            ) > usize::MAX),
        },
{
    let ext = file_type.extension();
    match content_to_csv(content) {
        Err(e) => {
            let mut m = owned("Failed to generate output: ");
            m.append(e.0.as_str());
            proof {
                assert(m@ == "Failed to generate output: "@ + e.0@);
            }
            Some(make_error_result(owned(file_name), ext, m))
        },
        Ok(data) => {
            let preview = match make_text_preview(data.as_str()) {
                Some(p) => p,
                None => {
                    return None;
                },
            };
            let bytes = data.as_str().as_bytes();
            proof {
                broadcast use group_utf8_lib;

                assert(bytes@ == encode_utf8(data@));
            }
            if !base64_fits(bytes.len()) {
                return None;
            }
            let encoded = base64_encode(bytes);
            Some(
                ProcessResult {
                    success: true,
                    scrubbed_data: Some(encoded),
                    scrubbed_preview: Some(preview),
                    file_name: generate_output_filename(file_name),
                    file_type: owned(ext),
                    stats,
                    error: None,
                    limit_warning: limit_warning(limits),
                    used_streaming: false,
                },
            )
        },
    }
}

/// The preview of streamed output: its first 2000 bytes read leniently as
/// UTF-8, and a note of its length in bytes when it is longer.
pub open spec fn bytes_preview(bytes: Seq<u8>) -> Seq<char> {
    if bytes.len() > 2000 {
        utf8_lossy_of(bytes.subrange(0, 2000)) + "...\n\n[Truncated - "@ + decimal_chars(bytes.len())
            + " total bytes]"@
    } else {
        utf8_lossy_of(bytes)
    }
}

/// The preview of streamed output.
pub fn make_bytes_preview(bytes: &Vec<u8>) -> (preview: String)
    ensures
        preview@ == bytes_preview(bytes@),
{
    let n = bytes.len();
    if n > 2000 {
        let head = vstd::slice::slice_subrange(bytes.as_slice(), 0, 2000);
        let mut text = utf8_lossy(head);
        text.append("...\n\n[Truncated - ");
        push_decimal(&mut text, n as u64, 0);
        text.append(" total bytes]");
        text
    } else {
        utf8_lossy(bytes.as_slice())
    }
}

/// The result of a file processed piece by piece: the output in base64,
/// its preview, the output file name, the extension it was processed as,
/// the streaming statistics (no counts by type) and, on a trial tier, the
/// warning. `None` when the base64 text would be longer than `usize` can
/// count.
pub fn streaming_result(
    file_name: &str,
    file_extension: String,
    output: &Vec<u8>,
    stats: &ProcessingStats,
    limits: &VersionLimits,
) -> (r: Option<ProcessResult>)
    ensures
        match r {
            Some(res) => {
                &&& res.success
                &&& res.scrubbed_data matches Some(d) && d@ == base64_of(output@)
                &&& res.scrubbed_preview matches Some(p) && p@ == bytes_preview(output@)
                &&& res.file_name@ == output_filename(file_name@)
                &&& res.file_type == file_extension
                &&& res.stats.total_pii_found == stats.total_pii_found
                &&& res.stats.pii_by_type@.len() == 0
                &&& res.stats.rows_affected == stats.rows_affected
                &&& res.stats.rows_processed == stats.rows_processed
                &&& res.stats.cells_affected == stats.cells_affected
                &&& res.error is None
                &&& match (res.limit_warning, lite_warning(*limits)) {
                    (Some(a), Some(b)) => a@ == b,
                    (None, None) => true,
                    _ => false,
                }
                &&& res.used_streaming
            },
            None => base64_len(output@.len()) > usize::MAX,
        },
        output@.len() <= isize::MAX ==> r is Some,
{
    proof {
        if output@.len() <= isize::MAX {
            law_vector_outputs_are_encodable(output@.len());
        }
    }
    if !base64_fits(output.len()) {
        return None;
    }
    let encoded = base64_encode(output.as_slice());
    let preview = make_bytes_preview(output);
    Some(
        ProcessResult {
            success: true,
            scrubbed_data: Some(encoded),
            scrubbed_preview: Some(preview),
            file_name: generate_output_filename(file_name),
            file_type: file_extension,
            stats: ScrubStats {
                total_pii_found: stats.total_pii_found,
                pii_by_type: Vec::new(),
                rows_affected: stats.rows_affected,
                rows_processed: stats.rows_processed,
                cells_affected: stats.cells_affected,
            },
            error: None,
            limit_warning: limit_warning(limits),
            used_streaming: true,
        },
    )
}

/// Whether streamed data with this extension is read as a table (CSV);
/// anything else is read as lines of text.
pub fn streams_as_table(extension: &str) -> (b: bool)
    ensures
        b == (lowercase_of(extension@) == "csv"@),
{
    let lower = to_lowercase(extension);
    str_eq(lower.as_str(), "csv")
}

} // verus!
