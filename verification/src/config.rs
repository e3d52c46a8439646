//! The companion's settings, and how pairing, unpairing, toggling and
//! uploads change them.
use vstd::prelude::*;

verus! {

/// The companion's settings. `uploaded_hashes` holds the content hashes of
/// the run files already uploaded, each once.
pub struct AppConfig {
    pub app_url: String,
    pub device_id: Option<String>,
    pub run_root: Option<String>,
    pub enabled: bool,
    pub uploaded_hashes: Vec<String>,
}

/// The settings as plain values, the uploaded hashes as a set.
pub struct AppConfigView {
    pub app_url: Seq<char>,
    pub device_id: Option<Seq<char>>,
    pub run_root: Option<Seq<char>>,
    pub enabled: bool,
    pub uploaded_hashes: Set<Seq<char>>,
}

impl View for AppConfig {
    type V = AppConfigView;

    open spec fn view(&self) -> AppConfigView {
        AppConfigView {
            app_url: self.app_url@,
            device_id: self.device_id.deep_view(),
            run_root: self.run_root.deep_view(),
            enabled: self.enabled,
            uploaded_hashes: self.uploaded_hashes.deep_view().to_set(),
        }
    }
}

fn contains_string(v: &Vec<String>, s: &String) -> (r: bool)
    ensures
        r == v.deep_view().contains(s@),
{
    let mut i: usize = 0;
    while i < v.len()
        invariant
            i <= v.len(),
            forall|j: int| 0 <= j < i ==> v.deep_view()[j] != s@,
        decreases v.len() - i,
    {
        if v[i] == *s {
            assert(v.deep_view()[i as int] == s@);
            return true;
        }
        i = i + 1;
    }
    false
}

impl AppConfig {
    /// No hash is held twice.
    pub open spec fn wf(&self) -> bool {
        self.uploaded_hashes.deep_view().no_duplicates()
    }

    /// Settings with the given values; a hash given more than once is kept
    /// once.
    pub fn new(
        app_url: String,
        device_id: Option<String>,
        run_root: Option<String>,
        enabled: bool,
        hashes: Vec<String>,
    ) -> (r: AppConfig)
        ensures
            r.wf(),
            r@ == (AppConfigView {
                app_url: app_url@,
                device_id: device_id.deep_view(),
                run_root: run_root.deep_view(),
                enabled,
                uploaded_hashes: hashes.deep_view().to_set(),
            }),
    {
        let mut kept: Vec<String> = Vec::new();
        let mut i: usize = 0;
        while i < hashes.len()
            invariant
                i <= hashes.len(),
                kept.deep_view().no_duplicates(),
                kept.deep_view().to_set() == hashes.deep_view().take(i as int).to_set(),
            decreases hashes.len() - i,
        {
            let ghost before = kept.deep_view();
            assert(hashes.deep_view().take(i + 1) =~= hashes.deep_view().take(i as int).push(
                hashes[i as int]@,
            ));
            if !contains_string(&kept, &hashes[i]) {
                kept.push(hashes[i].clone());
                assert(kept.deep_view() =~= before.push(hashes[i as int]@));
                proof {
                    before.lemma_push_to_set_commute(hashes[i as int]@);
                }
                assert(kept.deep_view().to_set() =~= before.to_set().insert(hashes[i as int]@));
            } else {
                assert(before.to_set().contains(hashes[i as int]@));
                assert(before.to_set() =~= before.to_set().insert(hashes[i as int]@));
            }
            proof {
                hashes.deep_view().take(i as int).lemma_push_to_set_commute(hashes[i as int]@);
            }
            assert(hashes.deep_view().take(i + 1).to_set() =~= hashes.deep_view().take(
                i as int,
            ).to_set().insert(hashes[i as int]@));
            i = i + 1;
        }
        assert(hashes.deep_view().take(hashes.len() as int) =~= hashes.deep_view());
        AppConfig { app_url, device_id, run_root, enabled, uploaded_hashes: kept }
    }

    /// The settings before any pairing: no dashboard, no device, the default
    /// run folders, syncing off, nothing uploaded.
    pub fn blank() -> (r: AppConfig)
        ensures
            r.wf(),
            r@.app_url.len() == 0,
            r@.device_id is None,
            r@.run_root is None,
            !r@.enabled,
            r@.uploaded_hashes == Set::<Seq<char>>::empty(),
    {
        let r = AppConfig {
            app_url: String::new(),
            device_id: None,
            run_root: None,
            enabled: false,
            uploaded_hashes: Vec::new(),
        };
        assert(r@.uploaded_hashes =~= Set::<Seq<char>>::empty());
        r
    }

    /// Whether a run file with this content hash was uploaded before.
    pub fn has_uploaded(&self, hash: &String) -> (r: bool)
        ensures
            r == self@.uploaded_hashes.contains(hash@),
    {
        contains_string(&self.uploaded_hashes, hash)
    }

    /// Remembers that a run file with this content hash was uploaded.
    pub fn remember_upload(&mut self, hash: String)
        ensures
            old(self).wf() ==> final(self).wf(),
            final(self)@ == (AppConfigView {
                uploaded_hashes: old(self)@.uploaded_hashes.insert(hash@),
                ..old(self)@
            }),
    {
        let ghost before = self.uploaded_hashes.deep_view();
        if !contains_string(&self.uploaded_hashes, &hash) {
            self.uploaded_hashes.push(hash);
            assert(self.uploaded_hashes.deep_view() =~= before.push(hash@));
            proof {
                before.lemma_push_to_set_commute(hash@);
            }
            assert(self@.uploaded_hashes =~= before.to_set().insert(hash@));
        } else {
            assert(before.to_set() =~= before.to_set().insert(hash@));
        }
    }

    /// Pairing succeeded: the device id and dashboard address are kept and
    /// syncing is switched on.
    pub fn record_pairing(&mut self, device_id: Option<String>, app_url: String)
        ensures
            final(self).wf() == old(self).wf(),
            final(self)@ == (AppConfigView {
                device_id: device_id.deep_view(),
                app_url: app_url@,
                enabled: true,
                ..old(self)@
            }),
    {
        self.device_id = device_id;
        self.app_url = app_url;
        self.enabled = true;
    }

    /// Unpairing: the device id is forgotten; everything else stays.
    pub fn forget_device(&mut self)
        ensures
            final(self).wf() == old(self).wf(),
            final(self)@ == (AppConfigView { device_id: None, ..old(self)@ }),
    {
        self.device_id = None;
    }

    /// Switches syncing on or off; everything else stays.
    pub fn set_enabled(&mut self, enabled: bool)
        ensures
            final(self).wf() == old(self).wf(),
            final(self)@ == (AppConfigView { enabled, ..old(self)@ }),
    {
        self.enabled = enabled;
    }
}

} // verus!
