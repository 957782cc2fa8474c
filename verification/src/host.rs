//! Trusted bindings to the host interpreter's logging subsystem.
//!
//! Every call the bridge makes into the host goes through one of the wrappers
//! here; the rest of the crate is verified against their contracts. The host
//! operations are exactly the external interface the bridge relies on:
//! look up a named logging handle, ask whether it is enabled for a severity,
//! build a record, dispatch it, and report a host-side failure.

use vstd::prelude::*;
use pyo3::types::PyAnyMethods;

verus! {

#[verifier::external_type_specification]
#[verifier::external_body]
pub struct ExPython<'py>(pyo3::Python<'py>);

#[verifier::external_type_specification]
#[verifier::external_body]
#[verifier::reject_recursive_types(T)]
pub struct ExPy<T>(pyo3::Py<T>);

#[verifier::external_type_specification]
#[verifier::external_body]
pub struct ExPyAny(pyo3::PyAny);

#[verifier::external_type_specification]
#[verifier::external_body]
pub struct ExPyErr(pyo3::PyErr);

/// Relies on Python's `logging.getLogger`: imports the host's `logging`
/// module and looks up or creates the logging handle registered under `name`
/// (a dot-separated hierarchical name). Which handle comes back depends on
/// the host's live state, so nothing is promised of the result.
#[verifier::external_body]
pub(crate) fn get_logger(py: pyo3::Python<'_>, name: &str) -> Result<
    pyo3::Py<pyo3::PyAny>,
    pyo3::PyErr,
> {
    let module = py.import("logging")?;
    let logger = module.getattr("getLogger")?.call1((name,))?;
    Ok(logger.unbind())
}

/// Relies on `logging.Logger.isEnabledFor`: asks the host whether `logger`
/// currently lets the numeric severity `level` through. The answer follows
/// the host's live configuration, which can change at any time, so nothing is
/// promised of it.
#[verifier::external_body]
pub(crate) fn is_enabled_for(
    py: pyo3::Python<'_>,
    logger: &pyo3::Py<pyo3::PyAny>,
    level: usize,
) -> Result<bool, pyo3::PyErr> {
    logger.bind(py).call_method1("isEnabledFor", (level,))?.is_truthy()
}

/// Relies on `logging.Logger.makeRecord`: builds a host-native record
/// carrying the logger name, numeric severity, best-effort file and line, and
/// the formatted message text.
#[verifier::external_body]
pub(crate) fn make_record(
    py: pyo3::Python<'_>,
    logger: &pyo3::Py<pyo3::PyAny>,
    name: &str,
    level: usize,
    file: Option<&str>,
    line: u32,
    msg: &str,
) -> Result<pyo3::Py<pyo3::PyAny>, pyo3::PyErr> {
    let none = py.None();
    let args = pyo3::types::PyTuple::empty(py);
    let record = logger
        .bind(py)
        .call_method1("makeRecord", (name, level, file, line, msg, args, &none))?;
    Ok(record.unbind())
}

/// Relies on `logging.Logger.handle`: dispatches a constructed record to the
/// host for handling; formatting and output are entirely the host's business
/// from here on.
#[verifier::external_body]
pub(crate) fn handle_record(
    py: pyo3::Python<'_>,
    logger: &pyo3::Py<pyo3::PyAny>,
    record: pyo3::Py<pyo3::PyAny>,
) -> Result<(), pyo3::PyErr> {
    logger.bind(py).call_method1("handle", (record,))?;
    Ok(())
}

/// Relies on `PyErr::print`: reports a host-side failure through the host's
/// own error channel. The logging call that hit the failure then completes
/// as a no-op.
#[verifier::external_body]
pub(crate) fn report_error(py: pyo3::Python<'_>, e: pyo3::PyErr) {
    e.print(py);
}

/// Relies on `Py::clone_ref`: returns a new reference to the same host
/// object, so the result equals the argument.
#[verifier::external_body]
pub(crate) fn clone_handle(py: pyo3::Python<'_>, h: &pyo3::Py<pyo3::PyAny>) -> (r: pyo3::Py<
    pyo3::PyAny,
>)
    ensures
        r == *h,
{
    h.clone_ref(py)
}

} // verus!
