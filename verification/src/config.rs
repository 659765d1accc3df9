//! The persisted configuration model: two saved profiles and a tag naming
//! the currently active one.

use vstd::prelude::*;

verus! {

/// Which of the two saved profiles is currently active.
#[derive(Clone, Copy, PartialEq, Eq, Structural, Debug)]
pub enum ProfileTag {
    A,
    B,
}

/// The tag a toggle switches to: the other of the two profiles.
pub open spec fn other_tag(t: ProfileTag) -> ProfileTag {
    match t {
        ProfileTag::A => ProfileTag::B,
        ProfileTag::B => ProfileTag::A,
    }
}

/// One saved routing intent: the desired sink and source, each remembered by
/// live identifier, human label and (optionally) stable node name, plus the
/// volume for each side, kept as the plain decimal text that the volume
/// command is handed.
pub struct ProfileConfig {
    pub sink_id: i32,
    pub sink_label: String,
    pub sink_node_name: Option<String>,
    pub source_id: i32,
    pub source_label: String,
    pub source_node_name: Option<String>,
    pub sink_volume: String,
    pub source_volume: String,
}

/// A profile at its first-run state: identifiers 0, labels empty, no node
/// names, both volumes at full scale.
pub open spec fn is_fresh_profile(p: ProfileConfig) -> bool {
    &&& p.sink_id == 0
    &&& p.sink_label@ == Seq::<char>::empty()
    &&& p.sink_node_name is None
    &&& p.source_id == 0
    &&& p.source_label@ == Seq::<char>::empty()
    &&& p.source_node_name is None
    &&& p.sink_volume@ == "1"@
    &&& p.source_volume@ == "1"@
}

impl Default for ProfileConfig {
    /// A fresh profile: identifiers 0, empty labels, no node names, both
    /// volumes at full scale.
    fn default() -> (p: Self)
        ensures
            is_fresh_profile(p),
    {
        ProfileConfig {
            sink_id: 0,
            sink_label: String::new(),
            sink_node_name: None,
            source_id: 0,
            source_label: String::new(),
            source_node_name: None,
            sink_volume: "1".to_owned(),
            source_volume: "1".to_owned(),
        }
    }
}

/// The full persisted state: both profiles and the active tag.
pub struct AppConfig {
    pub profile_a: ProfileConfig,
    pub profile_b: ProfileConfig,
    pub current_profile: ProfileTag,
}

impl Default for AppConfig {
    /// The first-run state: both profiles fresh, profile A active.
    fn default() -> (c: Self)
        ensures
            c.current_profile == ProfileTag::A,
            is_fresh_profile(c.profile_a),
            is_fresh_profile(c.profile_b),
    {
        AppConfig {
            profile_a: ProfileConfig::default(),
            profile_b: ProfileConfig::default(),
            current_profile: ProfileTag::A,
        }
    }
}

impl AppConfig {
    /// The tag a toggle from the current state switches to.
    pub fn toggle_target(&self) -> (t: ProfileTag)
        ensures
            t == other_tag(self.current_profile),
    {
        match self.current_profile {
            ProfileTag::A => ProfileTag::B,
            ProfileTag::B => ProfileTag::A,
        }
    }

    /// Switch the active tag to the other profile, leaving both profiles
    /// themselves untouched.
    pub fn toggle(&mut self)
        ensures
            final(self).current_profile == other_tag(old(self).current_profile),
            final(self).profile_a == old(self).profile_a,
            final(self).profile_b == old(self).profile_b,
    {
        self.current_profile = self.toggle_target();
    }

    /// The profile that the given tag names.
    pub fn profile_for(&self, t: ProfileTag) -> (p: &ProfileConfig)
        ensures
            t is A ==> p == &self.profile_a,
            t is B ==> p == &self.profile_b,
    {
        match t {
            ProfileTag::A => &self.profile_a,
            ProfileTag::B => &self.profile_b,
        }
    }
}

} // verus!
