//! The validation report the desktop app shows.
use vstd::prelude::*;

use crate::models::validate::{count_severity, Severity, ValidationError, ValidationResult};
use crate::text::owned;

verus! {

/// A finding as the desktop app shows it; `severity` is `error` or `warning`.
#[derive(Debug, Clone)]
pub struct ValidationErrorDto {
    pub file: String,
    pub message: String,
    pub severity: String,
}

/// A validation report as the desktop app shows it.
#[derive(Debug, Clone)]
pub struct ValidationResultDto {
    pub is_valid: bool,
    pub error_count: usize,
    pub warning_count: usize,
    pub errors: Vec<ValidationErrorDto>,
}

/// The name a severity shows as.
pub open spec fn severity_label(s: Severity) -> Seq<char> {
    match s {
        Severity::Error => "error"@,
        Severity::Warning => "warning"@,
    }
}

/// The report of a validation: validity, counts, and each finding in order.
pub fn validation_dto(result: &ValidationResult) -> (r: ValidationResultDto)
    ensures
        r.is_valid == (count_severity(result.errors@, Severity::Error) == 0),
        r.error_count == count_severity(result.errors@, Severity::Error),
        r.warning_count == count_severity(result.errors@, Severity::Warning),
        r.errors@.len() == result.errors@.len(),
        forall|i: int|
            #![trigger r.errors@[i]]
            0 <= i < r.errors@.len() ==> {
                &&& r.errors@[i].file@ == result.errors@[i].file@
                &&& r.errors@[i].message@ == result.errors@[i].message@
                &&& r.errors@[i].severity@ == severity_label(result.errors@[i].severity)
            },
{
    let mut errors: Vec<ValidationErrorDto> = Vec::new();
    let mut i: usize = 0;
    while i < result.errors.len()
        invariant
            i <= result.errors@.len(),
            errors@.len() == i,
            forall|k: int|
                #![trigger errors@[k]]
                0 <= k < i ==> {
                    &&& errors@[k].file@ == result.errors@[k].file@
                    &&& errors@[k].message@ == result.errors@[k].message@
                    &&& errors@[k].severity@ == severity_label(result.errors@[k].severity)
                },
        decreases result.errors.len() - i,
    {
        let e: &ValidationError = &result.errors[i];
        let severity = match e.severity {
            Severity::Error => owned("error"),
            Severity::Warning => owned("warning"),
        };
        errors.push(
            ValidationErrorDto {
                file: owned(e.file.as_str()),
                message: owned(e.message.as_str()),
                severity,
            },
        );
        i = i + 1;
    }
    ValidationResultDto {
        is_valid: result.is_valid(),
        error_count: result.error_count(),
        warning_count: result.warning_count(),
        errors,
    }
}

} // verus!
