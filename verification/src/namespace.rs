//! Namespaces: the names that select a data file and a log of their own.

use vstd::prelude::*;

use crate::text::{chars_of, str_equal};
use crate::{KvError, KvErrorView, DEFAULT_DATA_FILE, DEFAULT_RECENT_LOG};

verus! {

/// Whether a character may stand in a namespace: a letter `a` to `z` in
/// either case, a digit, `_`, `-` or `.`.
pub open spec fn is_name_char(c: char) -> bool {
    let u = c as u32;
    ||| 0x61 <= u <= 0x7A
    ||| 0x41 <= u <= 0x5A
    ||| 0x30 <= u <= 0x39
    ||| c == '_'
    ||| c == '-'
    ||| c == '.'
}

/// Whether a name is a namespace: not empty, not `.` or `..`, and made of
/// namespace characters only.
pub open spec fn is_namespace(name: Seq<char>) -> bool {
    &&& name.len() > 0
    &&& name != "."@
    &&& name != ".."@
    &&& forall|i: int| 0 <= i < name.len() ==> is_name_char(#[trigger] name[i])
}

/// The error for a name that is no namespace.
pub open spec fn bad_namespace(name: Seq<char>) -> KvErrorView {
    KvErrorView::InvalidInput("invalid namespace: "@ + name)
}

/// Whether a character may stand in a namespace.
pub fn name_char(c: char) -> (r: bool)
    ensures
        r == is_name_char(c),
{
    let u: u32 = c as u32;
    (0x61 <= u && u <= 0x7A) || (0x41 <= u && u <= 0x5A) || (0x30 <= u && u <= 0x39) || c == '_'
        || c == '-' || c == '.'
}

/// Checks that a name is a namespace.
pub fn validate_namespace(name: &str) -> (r: Result<(), KvError>)
    ensures
        match r {
            Ok(_) => is_namespace(name@),
            Err(err) => !is_namespace(name@) && err@ == bad_namespace(name@),
        },
{
    let chars = chars_of(name);
    let mut ok = chars.len() > 0 && !str_equal(name, ".") && !str_equal(name, "..");
    let mut i: usize = 0;
    while ok && i < chars.len()
        invariant
            i <= chars.len(),
            chars@ == name@,
            ok ==> chars.len() > 0 && name@ != "."@ && name@ != ".."@,
            ok ==> forall|k: int| 0 <= k < i ==> is_name_char(#[trigger] chars@[k]),
            !ok ==> !is_namespace(name@),
        decreases chars.len() - i,
    {
        if !name_char(chars[i]) {
            ok = false;
        }
        i = i + 1;
    }
    if ok {
        Ok(())
    } else {
        let mut message = String::from_str("invalid namespace: ");
        message.append(name);
        Err(KvError::InvalidInput(message))
    }
}

/// The data file of a namespace: the default file's name inside the
/// directory of the namespace.
pub open spec fn data_file_of(name: Seq<char>) -> Seq<char> {
    name + "/"@ + DEFAULT_DATA_FILE@
}

/// The log of recently used keys of a namespace.
pub open spec fn recent_log_of(name: Seq<char>) -> Seq<char> {
    name + "/"@ + DEFAULT_RECENT_LOG@
}

/// The data file of a namespace.
pub fn data_file(name: &str) -> (r: Result<String, KvError>)
    ensures
        match r {
            Ok(path) => is_namespace(name@) && path@ == data_file_of(name@),
            Err(err) => !is_namespace(name@) && err@ == bad_namespace(name@),
        },
{
    validate_namespace(name)?;
    let mut path = String::from_str(name);
    path.append("/");
    path.append(DEFAULT_DATA_FILE);
    Ok(path)
}

/// The log of recently used keys of a namespace.
pub fn recent_log(name: &str) -> (r: Result<String, KvError>)
    ensures
        match r {
            Ok(path) => is_namespace(name@) && path@ == recent_log_of(name@),
            Err(err) => !is_namespace(name@) && err@ == bad_namespace(name@),
        },
{
    validate_namespace(name)?;
    let mut path = String::from_str(name);
    path.append("/");
    path.append(DEFAULT_RECENT_LOG);
    Ok(path)
}

} // verus!
