//! A profile: a named bundle of identity fields.

use vstd::prelude::*;

verus! {

/// One identity profile: the name it is stored under, the user name
/// and email to apply, and an optional remote URL (empty means "do not
/// set a remote").
#[derive(Debug, PartialEq, Eq)]
pub struct Profile {
    pub profile_name: String,
    pub name: String,
    pub email: String,
    pub remote: String,
}

/// The mathematical content of a `Profile`: its four fields as
/// character sequences.
pub ghost struct ProfileView {
    pub profile_name: Seq<char>,
    pub name: Seq<char>,
    pub email: Seq<char>,
    pub remote: Seq<char>,
}

impl View for Profile {
    type V = ProfileView;

    open spec fn view(&self) -> ProfileView {
        ProfileView {
            profile_name: self.profile_name@,
            name: self.name@,
            email: self.email@,
            remote: self.remote@,
        }
    }
}

impl Profile {
    pub fn new(profile_name: String, name: String, email: String, remote: String) -> (p: Profile)
        ensures
            p@ == (ProfileView {
                profile_name: profile_name@,
                name: name@,
                email: email@,
                remote: remote@,
            }),
    {
        Profile { profile_name, name, email, remote }
    }
}

} // verus!
