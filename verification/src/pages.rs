//! Page-level decisions of the request handlers.
//!
//! The handlers themselves do I/O; what they decide — which activity the
//! add/edit page starts from, and where an edit submission redirects — is
//! computed here from plain values.

use vstd::prelude::*;
use crate::store::{ActivityStore, Activity, spec_activity_of};
use crate::time::LocalDateTime;
use crate::color::{string_to_rgb, spec_color_of_label};
use crate::text::{spec_uint_chars, push_uint};

verus! {

/// The query parameters of the add/edit page: the identity of the
/// activity to edit, when one is named.
#[derive(Clone, Copy, Debug, PartialEq, Eq, Structural)]
pub struct AddFormStruct {
    pub id: Option<i64>,
}

/// The activity the add/edit page starts from: the stored one when the
/// form names an identity; otherwise a blank entry dated `now` (the
/// caller's current local reading), typed with the first known label and
/// colored for it.  For a blank entry, an activity comes back exactly when
/// at least one type label is known; for a named identity, exactly when a
/// row has it.
pub fn add_page_activity(
    store: &ActivityStore,
    form: &AddFormStruct,
    types: &Vec<String>,
    now: LocalDateTime,
) -> (r: Option<Activity>)
    requires
        store.inv(),
        now.well_formed(),
    ensures
        form.id matches Some(id) ==> {
            &&& (r is Some <==> exists|i: int|
                0 <= i < store@.len() && (#[trigger] store@[i]).id == id)
            &&& (r matches Some(a) ==> exists|i: int|
                0 <= i < store@.len() && (#[trigger] store@[i]).id == id && a@
                    == spec_activity_of(store@[i]))
        },
        form.id is None ==> {
            &&& (r is Some <==> types@.len() > 0)
            &&& (r matches Some(a) ==> {
                &&& a@.id is None
                &&& a@.date == now
                &&& types@.len() > 0 && a@.kind == types@[0]@
                &&& a@.location == Seq::<char>::empty()
                &&& a@.description == Seq::<char>::empty()
                &&& a@.duration_centihours is None
                &&& a@.score_centi is None
                &&& a@.type_color == spec_color_of_label(a@.kind)
            })
        },
{
    match form.id {
        Some(id) => store.get_activity(id),
        None => default_new_activity(types, now),
    }
}

/// A blank activity for the add page: dated `now` (the caller's current
/// local reading, already truncated to seconds), typed with the first
/// known label and colored for it, all other fields empty.  An activity
/// comes back exactly when at least one type label is known.
pub fn default_new_activity(types: &Vec<String>, now: LocalDateTime) -> (r: Option<Activity>)
    requires
        now.well_formed(),
    ensures
        r is Some <==> types@.len() > 0,
        r matches Some(a) ==> {
            &&& a@.id is None
            &&& a@.date == now
            &&& types@.len() > 0 && a@.kind == types@[0]@
            &&& a@.location == Seq::<char>::empty()
            &&& a@.description == Seq::<char>::empty()
            &&& a@.duration_centihours is None
            &&& a@.score_centi is None
            &&& a@.type_color == spec_color_of_label(a@.kind)
        },
{
    if types.len() == 0 {
        return None;
    }
    let kind = types[0].clone();
    let color = string_to_rgb(kind.as_str());
    Some(
        Activity {
            id: None,
            date: now,
            location: String::new(),
            duration_centihours: None,
            kind,
            type_color: color,
            score_centi: None,
            description: String::new(),
        },
    )
}

/// The decimal form of an integer, with a sign when negative.
pub open spec fn spec_int_chars(v: int) -> Seq<char> {
    if v < 0 {
        seq!['-'] + spec_uint_chars(-v)
    } else {
        spec_uint_chars(v)
    }
}

/// Where the browser is sent after an edit submission: back to the index,
/// anchored at the edited activity when one identity was edited.
pub fn edit_redirect_target(id: Option<i64>) -> (r: String)
    ensures
        match id {
            None => r@ == "/"@,
            Some(v) => r@ == "/#"@ + spec_int_chars(v as int),
        },
{
    match id {
        None => {
            let mut out = String::new();
            out.push('/');
            proof {
                reveal_strlit("/");
                assert(out@ =~= "/"@);
            }
            out
        },
        Some(v) => {
            let mut out = String::new();
            out.push('/');
            out.push('#');
            let ghost prefix = out@;
            proof {
                reveal_strlit("/#");
                assert(prefix =~= "/#"@);
            }
            let magnitude: u64 = if v < 0 {
                out.push('-');
                (-(v as i128)) as u64
            } else {
                v as u64
            };
            push_uint(&mut out, magnitude);
            proof {
                assert(out@ =~= "/#"@ + spec_int_chars(v as int));
            }
            out
        },
    }
}

} // verus!
