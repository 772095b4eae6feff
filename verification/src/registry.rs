//! Named profiles: one request template paired with one response mapping,
//! and the registry they are looked up in.

use vstd::prelude::*;

use crate::profile::RequestProfile;
use crate::response::ResponseProfile;
use crate::{Error, ExtraArgs, ValidateConfig};

verus! {

/// One named configuration entry: how to build the request and which fields
/// to pick from the response.
#[derive(Debug)]
pub struct GeoCodingProfile {
    pub req: RequestProfile,
    pub res: ResponseProfile,
}

impl GeoCodingProfile {
    pub fn new(req: RequestProfile, res: ResponseProfile) -> (r: Self)
        ensures
            r.req == req,
            r.res == res,
    {
        GeoCodingProfile { req, res }
    }

    /// The override set one batch row runs with: the shared base plus this
    /// row's address appended as a query override, the row value with the
    /// fixed suffix.
    pub fn args_with_city(&self, args: &ExtraArgs, city: &str) -> (r: ExtraArgs)
        ensures
            r.headers.deep_view() == args.headers.deep_view(),
            r.body.deep_view() == args.body.deep_view(),
            r.query.deep_view().len() == args.query.deep_view().len() + 1,
            r.query.deep_view().subrange(0, args.query@.len() as int) == args.query.deep_view(),
            r.query.deep_view().last().0 == "address"@,
            r.query.deep_view().last().1 == city@ + "\u{4eba}\u{6c11}\u{653f}\u{5e9c}"@,
    {
        let mut r = args.duplicate();
        let val = city.to_owned().concat("\u{4eba}\u{6c11}\u{653f}\u{5e9c}");
        r.query.push((String::from_str("address"), val));
        proof {
            assert(r.query.deep_view().subrange(0, args.query@.len() as int)
                =~= args.query.deep_view());
        }
        r
    }
}

/// The registry: profile name to profile, in configuration order.
#[derive(Debug)]
pub struct GeoCodingConfig {
    pub profiles: Vec<(String, GeoCodingProfile)>,
}

/// Whether some entry of the registry carries the name.
pub open spec fn spec_has_profile(entries: Seq<(String, GeoCodingProfile)>, name: Seq<char>) -> bool {
    exists|i: int| 0 <= i < entries.len() && entries[i].0@ == name
}

impl GeoCodingConfig {
    pub fn new(profiles: Vec<(String, GeoCodingProfile)>) -> (r: Self)
        ensures
            r.profiles == profiles,
    {
        GeoCodingConfig { profiles }
    }

    /// The first profile stored under `name`, if any.
    #[verifier::loop_isolation(false)]
    pub fn get_profile(&self, name: &str) -> (r: Option<&GeoCodingProfile>)
        ensures
            match r {
                Some(p) => exists|i: int|
                    0 <= i < self.profiles@.len() && self.profiles@[i].0@ == name@ && (forall|
                        j: int,
                    | 0 <= j < i ==> self.profiles@[j].0@ != name@) && *p == self.profiles@[i].1,
                None => !spec_has_profile(self.profiles@, name@),
            },
    {
        let wanted = name.to_owned();
        let mut i: usize = 0;
        while i < self.profiles.len()
            invariant
                i <= self.profiles.len(),
                wanted@ == name@,
                forall|j: int| 0 <= j < i ==> self.profiles@[j].0@ != name@,
            decreases self.profiles.len() - i,
        {
            if self.profiles[i].0 == wanted {
                return Some(&self.profiles[i].1);
            }
            i += 1;
        }
        None
    }
}

impl ValidateConfig for GeoCodingProfile {
    /// A profile is valid when its request template is.
    open spec fn valid(&self) -> bool {
        self.req.valid()
    }

    /// On failure the error names the first offending part of the request
    /// template.
    fn validate(&self) -> (r: Result<(), Error>)
        ensures
            r is Ok <==> self.valid(),
            r matches Err(e) ==> e.deep() == crate::profile::spec_validate_err(self.req),
    {
        self.req.validate()
    }
}

impl ValidateConfig for GeoCodingConfig {
    /// A registry is usable only when every entry's profile is valid.
    open spec fn valid(&self) -> bool {
        forall|i: int| 0 <= i < self.profiles@.len() ==> (#[trigger] self.profiles@[i]).1.valid()
    }

    /// Checks every entry; the first invalid one fails the whole load, and
    /// the error carries that entry's profile name.
    fn validate(&self) -> (r: Result<(), Error>)
        ensures
            r is Ok <==> self.valid(),
            r matches Err(e) ==> exists|i: int|
                0 <= i < self.profiles@.len() && !(#[trigger] self.profiles@[i]).1.valid() && (
                forall|j: int| 0 <= j < i ==> (#[trigger] self.profiles@[j]).1.valid()) && e.deep()
                    == crate::ErrVal::ProfileInvalid(self.profiles@[i].0@),
    {
        let mut i: usize = 0;
        while i < self.profiles.len()
            invariant
                i <= self.profiles.len(),
                forall|j: int| 0 <= j < i ==> (#[trigger] self.profiles@[j]).1.valid(),
            decreases self.profiles.len() - i,
        {
            if self.profiles[i].1.validate().is_err() {
                let ghost w = i as int;
                let name = self.profiles[i].0.clone();
                proof {
                    assert(!self.profiles@[w].1.valid());
                }
                return Err(Error::ProfileInvalid(name));
            }
            i += 1;
        }
        Ok(())
    }
}

} // verus!
