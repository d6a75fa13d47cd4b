//! The settings of the application.
use crate::identity;
use crate::identity::SystemKind;
use crate::paths;
use vstd::prelude::*;

verus! {

/// A list of texts.
pub open spec fn view_texts(texts: Seq<String>) -> Seq<Seq<char>> {
    texts.map_values(|t: String| t@)
}

/// A copy of a list of texts.
pub fn copy_texts(texts: &Vec<String>) -> (r: Vec<String>)
    ensures
        view_texts(r@) == view_texts(texts@),
{
    let mut r: Vec<String> = Vec::new();
    let mut i: usize = 0;
    while i < texts.len()
        invariant
            i <= texts@.len(),
            r@.len() == i,
            forall|k: int| 0 <= k < i ==> (#[trigger] r@[k])@ == texts@[k]@,
        decreases texts@.len() - i,
    {
        r.push(texts[i].clone());
        i += 1;
    }
    assert(view_texts(r@) =~= view_texts(texts@));
    r
}

/// The settings of the application.
#[derive(Debug)]
pub struct AppConfig {
    pub device_name: String,
    pub share_roots: Vec<String>,
    pub download_dir: String,
    pub broadcast_addr: String,
}

/// What the settings say.
#[verifier::ext_equal]
pub struct ConfigView {
    pub device_name: Seq<char>,
    pub share_roots: Seq<Seq<char>>,
    pub download_dir: Seq<char>,
    pub broadcast_addr: Seq<char>,
}

impl View for AppConfig {
    type V = ConfigView;

    open spec fn view(&self) -> ConfigView {
        ConfigView {
            device_name: self.device_name@,
            share_roots: view_texts(self.share_roots@),
            download_dir: self.download_dir@,
            broadcast_addr: self.broadcast_addr@,
        }
    }
}

impl Clone for AppConfig {
    fn clone(&self) -> (r: Self)
        ensures
            r@ == self@,
    {
        AppConfig {
            device_name: self.device_name.clone(),
            share_roots: copy_texts(&self.share_roots),
            download_dir: self.download_dir.clone(),
            broadcast_addr: self.broadcast_addr.clone(),
        }
    }
}

/// Settings as they were stored when only one folder could be shared.
#[derive(Debug)]
pub struct LegacyConfig {
    pub device_name: String,
    pub share_root: String,
    pub download_dir: String,
    pub broadcast_addr: String,
}

impl LegacyConfig {
    /// The settings that old ones are turned into: the one shared folder becomes the only one
    /// of the list.
    pub open spec fn upgraded(&self) -> ConfigView {
        ConfigView {
            device_name: self.device_name@,
            share_roots: seq![self.share_root@],
            download_dir: self.download_dir@,
            broadcast_addr: self.broadcast_addr@,
        }
    }
}

/// What the settings file holds.
#[derive(Debug)]
pub enum StoredConfig {
    /// There is no file.
    Missing,
    /// Settings in the present form.
    Current(AppConfig),
    /// Settings in the old form.
    Legacy(LegacyConfig),
    /// Something else.
    Unreadable,
}

/// Whether settings have to be written.
#[derive(Clone, Copy, Debug, PartialEq, Eq, Structural)]
pub enum ConfigWrite {
    /// They are stored as they are.
    Nothing,
    /// They should be written; a failure does no harm.
    BestEffort,
    /// They must be written, and their folder made if need be.
    Required,
}

/// Whether `c` holds the settings of a device whose user has chosen none: one shared folder
/// and one for downloads among the application's own files, and the usual broadcast address.
pub open spec fn is_default_config(chosen: Option<String>, system: SystemKind, c: AppConfig) -> bool {
    let dir = paths::app_data_dir(chosen);
    &&& c.share_roots@.len() == 1
    &&& paths::joins_to(dir, "shared"@, c.share_roots@[0]@)
    &&& paths::joins_to(dir, "downloads"@, c.download_dir@)
    &&& c.broadcast_addr@ == "192.168.1.255:8888"@
    &&& system == SystemKind::Desktop ==> !identity::is_meaningless(c.device_name@)
    &&& system == SystemKind::Android ==> c.device_name@ == "Android Device"@
    &&& system == SystemKind::Other ==> c.device_name@ == "Generic Device"@
    &&& identity::is_fallback_name(system, c.device_name@)
}

impl AppConfig {
    /// The path of the settings file.
    pub fn path(chosen: &Option<String>) -> (r: String)
        ensures
            paths::joins_to(paths::app_data_dir(*chosen), "config.json"@, r@),
    {
        paths::get_app_data_path(chosen, "config.json")
    }

    /// The settings to work with, given what their file holds, and whether they have to be
    /// written: those in the present form are taken as they are, those in the old form are
    /// upgraded, and anything else is replaced.
    pub fn load_or_create(
        stored: StoredConfig,
        chosen: &Option<String>,
        system: SystemKind,
    ) -> (r: (AppConfig, ConfigWrite))
        ensures
            match stored {
                StoredConfig::Current(c) => r.0 == c && r.1 == ConfigWrite::Nothing,
                StoredConfig::Legacy(old) => {
                    &&& r.0@ == old.upgraded()
                    &&& r.1 == ConfigWrite::BestEffort
                },
                _ => {
                    &&& is_default_config(*chosen, system, r.0)
                    &&& r.1 == ConfigWrite::Required
                },
            },
    {
        match stored {
            StoredConfig::Current(c) => (c, ConfigWrite::Nothing),
            StoredConfig::Legacy(old) => {
                let ghost shown = old.upgraded();
                let mut share_roots: Vec<String> = Vec::new();
                share_roots.push(old.share_root);
                let c = AppConfig {
                    device_name: old.device_name,
                    share_roots,
                    download_dir: old.download_dir,
                    broadcast_addr: old.broadcast_addr,
                };
                assert(c@ =~= shown) by {
                    assert(c@.share_roots =~= shown.share_roots);
                }
                (c, ConfigWrite::BestEffort)
            },
            _ => {
                let mut share_roots: Vec<String> = Vec::new();
                share_roots.push(paths::get_app_data_path(chosen, "shared"));
                let c = AppConfig {
                    device_name: identity::get_fallback_device_name(system),
                    share_roots,
                    download_dir: paths::get_app_data_path(chosen, "downloads"),
                    broadcast_addr: "192.168.1.255:8888".to_owned(),
                };
                (c, ConfigWrite::Required)
            },
        }
    }

    /// Shares these folders and no others.
    pub fn set_share_roots(&mut self, roots: &Vec<String>)
        ensures
            final(self)@ == (ConfigView { share_roots: view_texts(roots@), ..old(self)@ }),
    {
        self.share_roots = copy_texts(roots);
    }

    /// Stores downloads in this folder.
    pub fn set_download_dir(&mut self, dir: &str)
        ensures
            final(self)@ == (ConfigView { download_dir: dir@, ..old(self)@ }),
    {
        self.download_dir = dir.to_owned();
    }
}

/// Settings say all that they hold.
pub proof fn law_settings_say_what_they_hold(c: AppConfig, i: int)
    ensures
        c@.device_name == c.device_name@,
        c@.download_dir == c.download_dir@,
        c@.broadcast_addr == c.broadcast_addr@,
        c@.share_roots.len() == c.share_roots@.len(),
        0 <= i < c.share_roots@.len() ==> c@.share_roots[i] == c.share_roots@[i]@,
{
}

/// Settings in the present form are used as they are and not written; those in the old form keep
/// all that they say, with their one folder shared; and where there are none, or they cannot be
/// read, new ones are written that share a folder of the application's own.
pub proof fn law_settings_are_kept(
    stored: StoredConfig,
    chosen: &Option<String>,
    system: SystemKind,
    r: (AppConfig, ConfigWrite),
)
    requires
        call_ensures(AppConfig::load_or_create, (stored, chosen, system), r),
    ensures
        stored is Current ==> r.0 == stored->Current_0 && r.1 == ConfigWrite::Nothing,
        stored is Legacy ==> {
            let old = stored->Legacy_0;
            &&& r.0.device_name@ == old.device_name@
            &&& r.0.share_roots@.len() == 1
            &&& r.0.share_roots@[0]@ == old.share_root@
            &&& r.0.download_dir@ == old.download_dir@
            &&& r.0.broadcast_addr@ == old.broadcast_addr@
            &&& r.1 == ConfigWrite::BestEffort
        },
        stored is Missing || stored is Unreadable ==> {
            &&& r.1 == ConfigWrite::Required
            &&& r.0.share_roots@.len() == 1
            &&& paths::joins_to(paths::app_data_dir(*chosen), "shared"@, r.0.share_roots@[0]@)
            &&& paths::joins_to(paths::app_data_dir(*chosen), "downloads"@, r.0.download_dir@)
            &&& r.0.broadcast_addr@ == "192.168.1.255:8888"@
            &&& identity::is_fallback_name(system, r.0.device_name@)
        },
{
    if stored is Legacy {
        let roots = r.0@.share_roots;
        assert(roots.len() == 1);
        assert(roots[0] == r.0.share_roots@[0]@);
    }
}

/// A list of texts says, place by place, what its members say.
pub proof fn law_texts_say_what_they_hold(texts: Seq<String>, i: int)
    ensures
        view_texts(texts).len() == texts.len(),
        0 <= i < texts.len() ==> view_texts(texts)[i] == texts[i]@,
{
}

} // verus!
