//! `cat-file`: shows the type, size or content of an object.
use crate::error::{ErrorKind, GitError};
use crate::objects::numbers::decimal;
use crate::objects::object::{
    modes_known, object_content, object_kind, object_size, object_type_name, size_fits, Object,
};
use crate::objects::numbers::decimal_bytes;
use crate::objects::utils::{ascii_chars, ascii_string, utf8_string};
use vstd::prelude::*;
use vstd::utf8::*;

verus! {

/// What `cat-file` is asked for.
pub struct CatFileArgs {
    pub obj_hash: String,
    pub show_type: bool,
    pub show_size: bool,
    pub show_content: bool,
}

/// What `cat-file` shows for an object: with `-s` its size, else with `-t`
/// its type, else with `-p` its content (which must be UTF-8); with none of
/// them it is an error. `None` where computing it would panic (a tree whose
/// sizes overflow, or with an entry of unknown mode).
pub fn output(object: &Object, args: &CatFileArgs) -> (res: Option<Result<String, GitError>>)
    ensures
        args.show_size ==> match res {
            None => !size_fits(object@),
            Some(r) => r matches Ok(s) && s@ == ascii_chars(decimal(object_size(object@))),
        },
        !args.show_size && args.show_type ==> (res matches Some(Ok(s)) && s@ == ascii_chars(
            object_type_name(object_kind(object@)),
        )),
        !args.show_size && !args.show_type && args.show_content ==> match res {
            None => !modes_known(object@),
            Some(r) => if valid_utf8(object_content(object@)) {
                r matches Ok(s) && encode_utf8(s@) == object_content(object@)
            } else {
                r matches Err(e) && e@ == ErrorKind::ContentNotUtf8
            },
        },
        !args.show_size && !args.show_type && !args.show_content ==> (res matches Some(Err(e))
            && e@ == ErrorKind::NoModeSpecified),
{
    if args.show_size {
        match object.checked_size() {
            None => None,
            Some(size) => {
                let digits = decimal_bytes(size as u64);
                proof {
                    crate::objects::numbers::lemma_decimal_digits(size as nat);
                    assert(crate::objects::utils::is_ascii_bytes(digits@)) by {
                        assert forall|i: int| 0 <= i < digits@.len() implies #[trigger] digits@[i]
                            < 128 by {
                            assert(crate::objects::numbers::is_digit(digits@[i]));
                        }
                    }
                }
                Some(Ok(ascii_string(digits)))
            },
        }
    } else if args.show_type {
        Some(Ok(object.obj_type().name()))
    } else if args.show_content {
        match object.checked_content() {
            None => None,
            Some(content) => match utf8_string(content) {
                Some(s) => Some(Ok(s)),
                None => Some(Err(GitError::ContentNotUtf8)),
            },
        }
    } else {
        Some(Err(GitError::NoModeSpecified))
    }
}

} // verus!
