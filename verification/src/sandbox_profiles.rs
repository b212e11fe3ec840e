//! Pre-built sandbox profiles for common application types.

use vstd::prelude::*;
use crate::text::str_eq;
use crate::keyed::{first_index, lemma_first_index, lemma_first_index_spec};

verus! {

/// A pre-defined sandbox profile.
#[derive(Debug, Clone)]
pub struct ProfileTemplate {
    pub name: String,
    pub description: String,
    pub allow_network: bool,
    pub allow_filesystem_read: Vec<String>,
    pub allow_filesystem_write: Vec<String>,
    pub deny_filesystem: Vec<String>,
    pub allow_dbus: bool,
    pub allow_x11: bool,
    pub allow_audio: bool,
    pub allow_camera: bool,
    pub allow_microphone: bool,
}

/// Profiles named `name`.
pub open spec fn named(name: Seq<char>) -> spec_fn(ProfileTemplate) -> bool {
    |t: ProfileTemplate| t.name@ == name
}

/// The first profile of `s` named `name`, if any.
pub open spec fn profile_named(s: Seq<ProfileTemplate>, name: Seq<char>) -> Option<ProfileTemplate> {
    let k = first_index(s, named(name));
    if k >= 0 {
        Some(s[k])
    } else {
        None
    }
}

/// After a profile is added, looking its name up finds it when no earlier
/// profile had that name and the earlier one otherwise; looking up any
/// other name finds what it found before.
pub proof fn lemma_add_then_get(s: Seq<ProfileTemplate>, p: ProfileTemplate, name: Seq<char>)
    ensures
        profile_named(s.push(p), p.name@) == match profile_named(s, p.name@) {
            Some(q) => Some(q),
            None => Some(p),
        },
        name != p.name@ ==> profile_named(s.push(p), name) == profile_named(s, name),
{
    let t = s.push(p);
    lemma_first_index_spec(s, named(p.name@));
    let k = first_index(s, named(p.name@));
    if k >= 0 {
        assert forall|j: int| 0 <= j < k implies !named(p.name@)(#[trigger] t[j]) by {
            assert(t[j] == s[j]);
        }
        lemma_first_index(t, named(p.name@), k);
    } else {
        assert forall|j: int| 0 <= j < s.len() implies !named(p.name@)(#[trigger] t[j]) by {
            assert(t[j] == s[j]);
        }
        lemma_first_index(t, named(p.name@), s.len() as int);
    }
    if name != p.name@ {
        lemma_first_index_spec(s, named(name));
        let m = first_index(s, named(name));
        if m >= 0 {
            assert forall|j: int| 0 <= j < m implies !named(name)(#[trigger] t[j]) by {
                assert(t[j] == s[j]);
            }
            lemma_first_index(t, named(name), m);
        } else {
            assert forall|j: int| 0 <= j < t.len() implies !named(name)(#[trigger] t[j]) by {
                if j < s.len() {
                    assert(t[j] == s[j]);
                }
            }
            lemma_first_index(t, named(name), t.len() as int);
        }
    }
}

/// The characters of each string of a sequence.
pub open spec fn strings_view(v: Seq<String>) -> Seq<Seq<char>> {
    v.map_values(|s: String| s@)
}

/// `t` has the given name, description, flags and path lists.
pub open spec fn is_template(
    t: ProfileTemplate,
    name: Seq<char>,
    description: Seq<char>,
    network: bool,
    read: Seq<Seq<char>>,
    write: Seq<Seq<char>>,
    deny: Seq<Seq<char>>,
    dbus: bool,
    x11: bool,
    audio: bool,
    camera: bool,
    microphone: bool,
) -> bool {
    &&& t.name@ == name
    &&& t.description@ == description
    &&& t.allow_network == network
    &&& strings_view(t.allow_filesystem_read@) == read
    &&& strings_view(t.allow_filesystem_write@) == write
    &&& strings_view(t.deny_filesystem@) == deny
    &&& t.allow_dbus == dbus
    &&& t.allow_x11 == x11
    &&& t.allow_audio == audio
    &&& t.allow_camera == camera
    &&& t.allow_microphone == microphone
}

/// The six built-in profiles, in order.
pub open spec fn is_default_profiles(p: Seq<ProfileTemplate>) -> bool {
    &&& p.len() == 6
    &&& is_template(
        p[0],
        "web-browser"@,
        "Web browser with network and limited filesystem access"@,
        true,
        seq!["~/Downloads"@, "~/.config/firefox"@],
        seq!["~/Downloads"@, "~/.cache/firefox"@],
        seq!["~/.ssh"@, "~/.gnupg"@, "/etc"@],
        true,
        true,
        true,
        false,
        false,
    )
    &&& is_template(
        p[1],
        "text-editor"@,
        "Text/code editor with no network"@,
        false,
        seq!["~"@],
        seq!["~"@],
        seq!["~/.ssh"@, "~/.gnupg"@, "/etc"@],
        true,
        true,
        false,
        false,
        false,
    )
    &&& is_template(
        p[2],
        "media-player"@,
        "Media player with audio and limited network"@,
        true,
        seq!["~/Music"@, "~/Videos"@, "~/Downloads"@],
        Seq::empty(),
        seq!["~"@],
        true,
        true,
        true,
        false,
        false,
    )
    &&& is_template(
        p[3],
        "communication"@,
        "Chat/video app with camera, mic, network"@,
        true,
        seq!["~/Downloads"@, "~/Pictures"@],
        seq!["~/Downloads"@],
        seq!["~/.ssh"@, "/etc"@],
        true,
        true,
        true,
        true,
        true,
    )
    &&& is_template(
        p[4],
        "development"@,
        "IDE/dev tool with network and full home access"@,
        true,
        seq!["~"@, "/usr"@],
        seq!["~"@, "/tmp"@],
        seq!["/etc/shadow"@, "/root"@],
        true,
        true,
        false,
        false,
        false,
    )
    &&& is_template(
        p[5],
        "untrusted"@,
        "Maximum lockdown for untrusted apps"@,
        false,
        Seq::empty(),
        Seq::empty(),
        seq!["/"@],
        false,
        false,
        false,
        false,
        false,
    )
}

fn list0() -> (r: Vec<String>)
    ensures
        strings_view(r@) == Seq::<Seq<char>>::empty(),
{
    let v: Vec<String> = Vec::new();
    assert(strings_view(v@) =~= Seq::<Seq<char>>::empty());
    v
}

fn list1(a: &str) -> (r: Vec<String>)
    ensures
        strings_view(r@) == seq![a@],
{
    let mut v: Vec<String> = Vec::new();
    v.push(String::from_str(a));
    assert(strings_view(v@) =~= seq![a@]);
    v
}

fn list2(a: &str, b: &str) -> (r: Vec<String>)
    ensures
        strings_view(r@) == seq![a@, b@],
{
    let mut v: Vec<String> = Vec::new();
    v.push(String::from_str(a));
    v.push(String::from_str(b));
    assert(strings_view(v@) =~= seq![a@, b@]);
    v
}

fn list3(a: &str, b: &str, c: &str) -> (r: Vec<String>)
    ensures
        strings_view(r@) == seq![a@, b@, c@],
{
    let mut v: Vec<String> = Vec::new();
    v.push(String::from_str(a));
    v.push(String::from_str(b));
    v.push(String::from_str(c));
    assert(strings_view(v@) =~= seq![a@, b@, c@]);
    v
}

fn template(
    name: &str,
    description: &str,
    network: bool,
    read: Vec<String>,
    write: Vec<String>,
    deny: Vec<String>,
    dbus: bool,
    x11: bool,
    audio: bool,
    camera: bool,
    microphone: bool,
) -> (t: ProfileTemplate)
    ensures
        is_template(
            t,
            name@,
            description@,
            network,
            strings_view(read@),
            strings_view(write@),
            strings_view(deny@),
            dbus,
            x11,
            audio,
            camera,
            microphone,
        ),
{
    ProfileTemplate {
        name: String::from_str(name),
        description: String::from_str(description),
        allow_network: network,
        allow_filesystem_read: read,
        allow_filesystem_write: write,
        deny_filesystem: deny,
        allow_dbus: dbus,
        allow_x11: x11,
        allow_audio: audio,
        allow_camera: camera,
        allow_microphone: microphone,
    }
}

/// Pre-built profile registry.
pub struct ProfileRegistry {
    profiles: Vec<ProfileTemplate>,
}

impl ProfileRegistry {
    /// The registered profiles, in order.
    pub closed spec fn view(&self) -> Seq<ProfileTemplate> {
        self.profiles@
    }

    pub fn new() -> (r: Self)
        ensures
            is_default_profiles(r@),
    {
        Self { profiles: Self::build_defaults() }
    }

    pub fn build_defaults() -> (r: Vec<ProfileTemplate>)
        ensures
            is_default_profiles(r@),
    {
        let mut v: Vec<ProfileTemplate> = Vec::new();
        v.push(
            template(
                "web-browser",
                "Web browser with network and limited filesystem access",
                true,
                list2("~/Downloads", "~/.config/firefox"),
                list2("~/Downloads", "~/.cache/firefox"),
                list3("~/.ssh", "~/.gnupg", "/etc"),
                true,
                true,
                true,
                false,
                false,
            ),
        );
        v.push(
            template(
                "text-editor",
                "Text/code editor with no network",
                false,
                list1("~"),
                list1("~"),
                list3("~/.ssh", "~/.gnupg", "/etc"),
                true,
                true,
                false,
                false,
                false,
            ),
        );
        v.push(
            template(
                "media-player",
                "Media player with audio and limited network",
                true,
                list3("~/Music", "~/Videos", "~/Downloads"),
                list0(),
                list1("~"),
                true,
                true,
                true,
                false,
                false,
            ),
        );
        v.push(
            template(
                "communication",
                "Chat/video app with camera, mic, network",
                true,
                list2("~/Downloads", "~/Pictures"),
                list1("~/Downloads"),
                list2("~/.ssh", "/etc"),
                true,
                true,
                true,
                true,
                true,
            ),
        );
        v.push(
            template(
                "development",
                "IDE/dev tool with network and full home access",
                true,
                list2("~", "/usr"),
                list2("~", "/tmp"),
                list2("/etc/shadow", "/root"),
                true,
                true,
                false,
                false,
                false,
            ),
        );
        v.push(
            template(
                "untrusted",
                "Maximum lockdown for untrusted apps",
                false,
                list0(),
                list0(),
                list1("/"),
                false,
                false,
                false,
                false,
                false,
            ),
        );
        v
    }

    /// Get the first profile with the given name.
    pub fn get(&self, name: &str) -> (r: Option<&ProfileTemplate>)
        ensures
            match r {
                Some(t) => exists|i: int|
                    0 <= i < self@.len() && self@[i] == *t && t.name@ == name@ && forall|j: int|
                        0 <= j < i ==> self@[j].name@ != name@,
                None => forall|j: int| 0 <= j < self@.len() ==> self@[j].name@ != name@,
            },
            match r {
                Some(t) => profile_named(self@, name@) == Some(*t),
                None => profile_named(self@, name@) is None,
            },
    {
        let mut i: usize = 0;
        while i < self.profiles.len()
            invariant
                i <= self@.len(),
                forall|j: int| 0 <= j < i ==> self@[j].name@ != name@,
            decreases self@.len() - i,
        {
            if str_eq(self.profiles[i].name.as_str(), name) {
                proof {
                    lemma_first_index(self@, named(name@), i as int);
                }
                return Some(&self.profiles[i]);
            }
            i = i + 1;
        }
        proof {
            lemma_first_index(self@, named(name@), self@.len() as int);
        }
        None
    }

    /// Add a custom profile.
    pub fn add(&mut self, profile: ProfileTemplate)
        ensures
            final(self)@ == old(self)@.push(profile),
    {
        self.profiles.push(profile);
    }

    /// List all profiles.
    pub fn list(&self) -> (r: &[ProfileTemplate])
        ensures
            r@ == self@,
    {
        self.profiles.as_slice()
    }

    pub fn count(&self) -> (r: usize)
        ensures
            r == self@.len(),
    {
        self.profiles.len()
    }
}

impl Default for ProfileRegistry {
    fn default() -> (r: Self) {
        Self::new()
    }
}

} // verus!
