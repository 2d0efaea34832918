//! Texts the form front ends show: a field's label, the last segment of a
//! path, the first error message of a validation output, and an example of
//! a string format.
use vstd::prelude::*;
use crate::pointer::last_index_of;
use crate::runtime::FieldNode;
use crate::schema::str_opt_model;
use crate::text::{chars_of, str_eq, to_owned_string, push_str};
use crate::validate::ValidationOutput;

verus! {

/// The kinds of native controls a form is built from.
#[derive(Debug, Clone, Copy, PartialEq, Eq, Structural)]
pub enum ControlKind {
    Edit,
    EditMultiline,
    EditPassword,
    ComboBox,
    CheckBox,
    NumberEdit,
    AddButton,
    RemoveButton,
    BrowseButton,
    TabControl,
    Label,
}

/// The last segment of a path, `Root` for the empty path.
pub open spec fn spec_last_segment(path: Seq<char>) -> Seq<char> {
    if path.len() == 0 {
        "Root"@
    } else {
        match last_index_of(path, '/') {
            Some(i) => path.skip(i + 1),
            None => path,
        }
    }
}

/// The text after the last `/` of a path; `Root` for the empty path.
pub fn path_last_segment(path: &str) -> (r: String)
    ensures
        r@ == spec_last_segment(path@),
{
    if path.unicode_len() == 0 {
        return to_owned_string("Root");
    }
    let cs = chars_of(path);
    let ghost p = path@;
    let mut i: usize = cs.len();
    assert(p.take(i as int) =~= p);
    while i > 0 && cs[i - 1] != '/'
        invariant
            i <= cs@.len(),
            cs@ == p,
            forall|t: int| i <= t < cs@.len() ==> cs@[t] != '/',
            last_index_of(p, '/') == last_index_of(p.take(i as int), '/'),
        decreases i,
    {
        assert(p.take(i as int).drop_last() =~= p.take(i - 1));
        i = i - 1;
    }
    if i == 0 {
        assert(last_index_of(p.take(0), '/') is None);
        return to_owned_string(path);
    }
    assert(p.take(i as int).last() == '/');
    let tail = crate::pointer::slice_tail(&cs, i);
    crate::text::string_from_chars(tail.as_slice())
}

/// The key of the first error in a validation output, depth first.
pub open spec fn first_error_key(vo: ValidationOutput) -> Option<Seq<char>>
    decreases vo, 1nat, 0nat,
{
    match vo.error {
        Some(e) => Some(e.key@),
        None => first_child_key(vo, 0),
    }
}

/// The first error key among the nested outputs from `i` on.
pub open spec fn first_child_key(vo: ValidationOutput, i: nat) -> Option<Seq<char>>
    decreases vo, 0nat, vo.errors@.len() - i,
{
    if i >= vo.errors@.len() {
        None
    } else {
        match first_error_key(vo.errors@[i as int]) {
            Some(k) => Some(k),
            None => first_child_key(vo, i + 1),
        }
    }
}

/// The key of the first error message, depth first.
pub fn format_first_error(vo: &ValidationOutput) -> (r: Option<String>)
    ensures
        str_opt_model(r) == first_error_key(*vo),
    decreases vo,
{
    if let Some(err) = &vo.error {
        return Some(err.key.clone());
    }
    let mut i: usize = 0;
    while i < vo.errors.len()
        invariant
            i <= vo.errors@.len(),
            vo.error is None,
            first_child_key(*vo, i as nat) == first_error_key(*vo),
        decreases vo.errors.len() - i,
    {
        proof {
            assert(decreases_to!(vo => vo.errors@[i as int]));
        }
        if let Some(msg) = format_first_error(&vo.errors[i]) {
            return Some(msg);
        }
        i = i + 1;
    }
    None
}

/// An example of a string format, empty for other formats.
pub open spec fn spec_format_hint(f: Seq<char>) -> Seq<char> {
    if f == "date"@ {
        "YYYY-MM-DD"@
    } else if f == "date-time"@ {
        "YYYY-MM-DDThh:mm:ssZ"@
    } else if f == "time"@ {
        "hh:mm:ss"@
    } else if f == "email"@ {
        "user@example.com"@
    } else if f == "uri"@ {
        "https://example.com"@
    } else if f == "uuid"@ {
        "xxxxxxxx-xxxx-xxxx-xxxx-xxxxxxxxxxxx"@
    } else if f == "ipv4"@ {
        "0.0.0.0"@
    } else if f == "ipv6"@ {
        "::1"@
    } else if f == "duration"@ {
        "P1DT12H"@
    } else if f == "hostname"@ {
        "example.com"@
    } else {
        ""@
    }
}

/// An example of a string format, to show as a hint.
pub fn format_hint(format: &str) -> (r: &'static str)
    ensures
        r@ == spec_format_hint(format@),
{
    if str_eq(format, "date") {
        "YYYY-MM-DD"
    } else if str_eq(format, "date-time") {
        "YYYY-MM-DDThh:mm:ssZ"
    } else if str_eq(format, "time") {
        "hh:mm:ss"
    } else if str_eq(format, "email") {
        "user@example.com"
    } else if str_eq(format, "uri") {
        "https://example.com"
    } else if str_eq(format, "uuid") {
        "xxxxxxxx-xxxx-xxxx-xxxx-xxxxxxxxxxxx"
    } else if str_eq(format, "ipv4") {
        "0.0.0.0"
    } else if str_eq(format, "ipv6") {
        "::1"
    } else if str_eq(format, "duration") {
        "P1DT12H"
    } else if str_eq(format, "hostname") {
        "example.com"
    } else {
        ""
    }
}

/// A field's label: its schema's title, else its path's last segment.
pub open spec fn spec_field_label(node: FieldNode) -> Seq<char> {
    match node.schema@.title {
        Some(t) => t,
        None => spec_last_segment(node.instance_location@),
    }
}

pub fn field_label(node: &FieldNode) -> (r: String)
    ensures
        r@ == spec_field_label(*node),
{
    proof {
        crate::schema::lemma_schema_fields(node.schema);
    }
    match &node.schema.title {
        Some(t) => t.clone(),
        None => path_last_segment(node.instance_location.as_str()),
    }
}

/// The label followed by ` *` for a required field.
pub fn label_text(node: &FieldNode) -> (r: String)
    ensures
        r@ == if node.required { spec_field_label(*node) + " *"@ } else { spec_field_label(*node) },
{
    let mut label = field_label(node);
    if node.required {
        push_str(&mut label, " *");
    }
    label
}

} // verus!
