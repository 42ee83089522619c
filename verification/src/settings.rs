//! The settings store: key/value upsert for the four recognized keys, and
//! typed reconstruction with the documented defaults.

use vstd::prelude::*;
use crate::store::Store;
use crate::store::StoreV;
use crate::types::SettingRecord;
use crate::types::SettingV;
use crate::types::Settings;
use crate::types::SettingsV;
use crate::types::StoreError;
use crate::seq_lemmas::lemma_map_values_push;

verus! {

/// The view of a vector of settings rows.
pub open spec fn set_views(v: Seq<SettingRecord>) -> Seq<SettingV> {
    v.map_values(|s: SettingRecord| s@)
}

/// Keys occur at most once.
pub open spec fn unique_keys(s: Seq<SettingV>) -> bool {
    forall|i: int, j: int|
        0 <= i < j < s.len() ==> (#[trigger] s[i].key) != (#[trigger] s[j].key)
}

/// Some row carries this key.
pub open spec fn has_key(s: Seq<SettingV>, key: Seq<char>) -> bool {
    exists|i: int| 0 <= i < s.len() && #[trigger] s[i].key == key
}

/// The index of the row carrying this key.
pub open spec fn key_index(s: Seq<SettingV>, key: Seq<char>) -> int {
    choose|i: int| 0 <= i < s.len() && #[trigger] s[i].key == key
}

/// The stored value under this key, if any.
pub open spec fn setting_value(s: Seq<SettingV>, key: Seq<char>) -> Option<Seq<char>> {
    if has_key(s, key) {
        Some(s[key_index(s, key)].value)
    } else {
        None
    }
}

/// The rows after an upsert: the row carrying the key is replaced, or a
/// new row is appended.
pub open spec fn upsert_model(
    s: Seq<SettingV>,
    key: Seq<char>,
    value: Seq<char>,
    now: u64,
) -> Seq<SettingV> {
    let row = SettingV { key: key, value: value, updated_at: now };
    if has_key(s, key) {
        s.update(key_index(s, key), row)
    } else {
        s.push(row)
    }
}

/// The stored text of a boolean.
pub open spec fn bool_chars(b: bool) -> Seq<char> {
    if b {
        "true"@
    } else {
        "false"@
    }
}

/// The cell stored for the optional api key: the empty string stands for
/// "unset".
pub open spec fn api_key_cell(v: Option<Seq<char>>) -> Seq<char> {
    match v {
        Some(s) => s,
        None => Seq::empty(),
    }
}

/// The rows after saving a settings object: one upsert per recognized key,
/// in a fixed order.
pub open spec fn save_settings_model(s: Seq<SettingV>, v: SettingsV, now: u64) -> Seq<SettingV> {
    let r1 = upsert_model(s, "anthropic_api_key"@, api_key_cell(v.anthropic_api_key), now);
    let r2 = upsert_model(r1, "theme"@, v.theme, now);
    let r3 = upsert_model(r2, "auto_save"@, bool_chars(v.auto_save), now);
    upsert_model(r3, "default_project_path"@, v.default_project_path, now)
}

/// The api key read back: present exactly when a nonempty cell is stored.
pub open spec fn api_key_of(v: Option<Seq<char>>) -> Option<Seq<char>> {
    match v {
        Some(t) => if t.len() > 0 {
            Some(t)
        } else {
            None
        },
        None => None,
    }
}

/// The theme read back, defaulting to `"dark"`.
pub open spec fn theme_of(v: Option<Seq<char>>) -> Seq<char> {
    match v {
        Some(t) => t,
        None => "dark"@,
    }
}

/// The auto-save flag read back: only the exact texts `"true"` and
/// `"false"` parse; anything else falls back to the default `true`.
pub open spec fn auto_save_of(v: Option<Seq<char>>) -> bool {
    match v {
        Some(t) => if t == "true"@ {
            true
        } else if t == "false"@ {
            false
        } else {
            true
        },
        None => true,
    }
}

/// The project path read back, defaulting to the documents folder.
pub open spec fn path_of(v: Option<Seq<char>>) -> Seq<char> {
    match v {
        Some(t) => t,
        None => "~/Documents/Vibing2Projects"@,
    }
}

/// The typed settings reconstructed from the stored rows.
pub open spec fn load_settings_model(s: Seq<SettingV>) -> SettingsV {
    SettingsV {
        anthropic_api_key: api_key_of(setting_value(s, "anthropic_api_key"@)),
        theme: theme_of(setting_value(s, "theme"@)),
        auto_save: auto_save_of(setting_value(s, "auto_save"@)),
        default_project_path: path_of(setting_value(s, "default_project_path"@)),
    }
}

/// The index of the row carrying `key`, if any.
fn find_key(rows: &Vec<SettingRecord>, key: &String) -> (r: Option<usize>)
    requires
        unique_keys(set_views(rows@)),
    ensures
        match r {
            Some(i) => has_key(set_views(rows@), key@)
                && i == key_index(set_views(rows@), key@) && 0 <= i < rows@.len(),
            None => !has_key(set_views(rows@), key@),
        },
{
    let n = rows.len();
    let mut i: usize = 0;
    while i < n
        invariant
            unique_keys(set_views(rows@)),
            n == rows@.len(),
            i <= n,
            forall|j: int| 0 <= j < i ==> (#[trigger] set_views(rows@)[j].key) != key@,
        decreases n - i,
    {
        if rows[i].key == *key {
            proof {
                assert(set_views(rows@)[i as int].key == key@);
                let w = key_index(set_views(rows@), key@);
                if w != i as int {
                    if w < i as int {
                        assert(set_views(rows@)[w].key != set_views(rows@)[i as int].key);
                    } else {
                        assert(set_views(rows@)[i as int].key != set_views(rows@)[w].key);
                    }
                }
            }
            return Some(i);
        }
        i = i + 1;
    }
    None
}

/// Inserts the row, or updates the row carrying its key.
fn upsert_row(rows: &mut Vec<SettingRecord>, key: String, value: String, now: u64)
    requires
        unique_keys(set_views(old(rows)@)),
    ensures
        set_views(final(rows)@) == upsert_model(set_views(old(rows)@), key@, value@, now),
        unique_keys(set_views(final(rows)@)),
{
    let row = SettingRecord { key, value, updated_at: now };
    let found = find_key(rows, &row.key);
    let ghost r0 = rows@;
    match found {
        Some(i) => {
            rows.set(i, row);
            proof {
                assert(set_views(rows@) =~= upsert_model(set_views(r0), set_views(rows@)[i as int].key, set_views(rows@)[i as int].value, now));
            }
        }
        None => {
            rows.push(row);
            proof {
                lemma_map_values_push(r0, rows@[r0.len() as int], |s: SettingRecord| s@);
                assert(set_views(rows@) =~= set_views(r0).push(set_views(rows@).last()));
            }
        }
    }
    proof {
        lemma_upsert_unique(set_views(r0), key@, value@, now);
    }
}

/// An upsert keeps keys unique.
pub proof fn lemma_upsert_unique(s: Seq<SettingV>, key: Seq<char>, value: Seq<char>, now: u64)
    requires
        unique_keys(s),
    ensures
        unique_keys(upsert_model(s, key, value, now)),
{
    let t = upsert_model(s, key, value, now);
    if has_key(s, key) {
        let w = key_index(s, key);
        assert(s[w].key == key);
        assert forall|i: int, j: int| 0 <= i < j < t.len()
            implies (#[trigger] t[i].key) != (#[trigger] t[j].key) by {
            assert(t[i].key == s[i].key);
            assert(t[j].key == s[j].key);
        }
    } else {
        assert forall|i: int, j: int| 0 <= i < j < t.len()
            implies (#[trigger] t[i].key) != (#[trigger] t[j].key) by {
            if j == s.len() {
                assert(t[i].key == s[i].key);
                assert(!(exists|m: int| 0 <= m < s.len() && #[trigger] s[m].key == key));
                assert(s[i].key != key);
            } else {
                assert(t[i].key == s[i].key);
                assert(t[j].key == s[j].key);
            }
        }
    }
}

/// After an upsert, the upserted key holds the written value.
pub proof fn lemma_upsert_sets(s: Seq<SettingV>, key: Seq<char>, value: Seq<char>, now: u64)
    requires
        unique_keys(s),
    ensures
        setting_value(upsert_model(s, key, value, now), key) == Some(value),
{
    let t = upsert_model(s, key, value, now);
    if has_key(s, key) {
        let w = key_index(s, key);
        assert(t[w].key == key);
        assert(has_key(t, key));
        let w2 = key_index(t, key);
        if w2 != w {
            assert(t[w2].key == key);
            if w2 < w {
                assert(s[w2].key != s[w].key);
                assert(t[w2].key == s[w2].key);
            } else {
                assert(s[w].key != s[w2].key);
                assert(t[w2].key == s[w2].key);
            }
        }
    } else {
        let w = s.len() as int;
        assert(t[w].key == key);
        assert(has_key(t, key));
        let w2 = key_index(t, key);
        if w2 != w {
            assert(t[w2].key == s[w2].key);
            assert(has_key(s, key));
        }
    }
}

/// An upsert leaves every other key's value as it was.
pub proof fn lemma_upsert_preserves(
    s: Seq<SettingV>,
    key: Seq<char>,
    value: Seq<char>,
    now: u64,
    other: Seq<char>,
)
    requires
        unique_keys(s),
        other != key,
    ensures
        setting_value(upsert_model(s, key, value, now), other)
            == setting_value(s, other),
{
    let t = upsert_model(s, key, value, now);
    if has_key(s, key) {
        let w = key_index(s, key);
        assert(forall|i: int| 0 <= i < t.len() && i != w
            ==> (#[trigger] t[i]) == s[i]);
        assert(t[w].key == key);
        if has_key(s, other) {
            let v = key_index(s, other);
            assert(s[v].key == other);
            assert(v != w);
            assert(t[v].key == other);
            assert(has_key(t, other));
            let v2 = key_index(t, other);
            if v2 != v {
                assert(t[v2].key == other);
                assert(v2 != w);
                assert(s[v2].key == other);
                if v2 < v {
                    assert(s[v2].key != s[v].key);
                } else {
                    assert(s[v].key != s[v2].key);
                }
            }
            assert(t[v2] == s[v]);
        } else {
            if has_key(t, other) {
                let v2 = key_index(t, other);
                assert(t[v2].key == other);
                assert(v2 != w);
                assert(s[v2].key == other);
            }
        }
    } else {
        let w = s.len() as int;
        assert(forall|i: int| 0 <= i < s.len() ==> (#[trigger] t[i]) == s[i]);
        assert(t[w].key == key);
        if has_key(s, other) {
            let v = key_index(s, other);
            assert(t[v].key == other);
            assert(has_key(t, other));
            let v2 = key_index(t, other);
            if v2 != v {
                assert(t[v2].key == other);
                assert(v2 != w);
                assert(s[v2].key == other);
                if v2 < v {
                    assert(s[v2].key != s[v].key);
                } else {
                    assert(s[v].key != s[v2].key);
                }
            }
            assert(t[v2] == s[v]);
        } else {
            if has_key(t, other) {
                let v2 = key_index(t, other);
                assert(t[v2].key == other);
                assert(v2 != w);
                assert(s[v2].key == other);
            }
        }
    }
}

impl Store {
    /// Saves the settings: one upsert per recognized key, storing the
    /// empty string for an unset api key, at the given timestamp.
    pub fn save_settings(&mut self, settings: &Settings, now: u64) -> (r: Result<(), StoreError>)
        requires
            old(self)@.wf(),
        ensures
            final(self)@.wf(),
            r is Ok,
            final(self)@ == (StoreV {
                settings: save_settings_model(old(self)@.settings, settings@, now),
                ..old(self)@
            }),
    {
        let api_value: String = match &settings.anthropic_api_key {
            Some(s) => s.clone(),
            None => String::new(),
        };
        let auto_value: String = if settings.auto_save {
            String::from_str("true")
        } else {
            String::from_str("false")
        };
        proof {
            assert(api_value@ == api_key_cell(settings@.anthropic_api_key));
            assert(auto_value@ == bool_chars(settings@.auto_save));
        }
        upsert_row(&mut self.settings, String::from_str("anthropic_api_key"), api_value, now);
        upsert_row(&mut self.settings, String::from_str("theme"), settings.theme.clone(), now);
        upsert_row(&mut self.settings, String::from_str("auto_save"), auto_value, now);
        upsert_row(
            &mut self.settings,
            String::from_str("default_project_path"),
            settings.default_project_path.clone(),
            now,
        );
        proof {
            assert(self@ =~= StoreV {
                settings: save_settings_model(old(self)@.settings, settings@, now),
                ..old(self)@
            });
        }
        Ok(())
    }

    /// The stored value under `key`, copied out.
    fn get_setting(&self, key: &String) -> (r: Option<String>)
        requires
            self@.wf(),
        ensures
            match r {
                Some(v) => setting_value(self@.settings, key@) == Some(v@),
                None => (setting_value(self@.settings, key@) is None),
            },
    {
        match find_key(&self.settings, key) {
            Some(i) => Some(self.settings[i].value.clone()),
            None => None,
        }
    }

    /// Loads the typed settings: recognized keys are matched, absent keys
    /// fall back to the documented defaults, an unparseable auto-save
    /// value falls back to `true`, and an empty api-key cell reads as
    /// unset.
    pub fn load_settings(&self) -> (r: Settings)
        requires
            self@.wf(),
        ensures
            r@ == load_settings_model(self@.settings),
    {
        let api = match self.get_setting(&String::from_str("anthropic_api_key")) {
            Some(v) => {
                if v.as_str().is_empty() {
                    None
                } else {
                    Some(v)
                }
            }
            None => None,
        };
        let theme = match self.get_setting(&String::from_str("theme")) {
            Some(v) => v,
            None => String::from_str("dark"),
        };
        let auto_save = match self.get_setting(&String::from_str("auto_save")) {
            Some(v) => {
                if v == String::from_str("true") {
                    true
                } else if v == String::from_str("false") {
                    false
                } else {
                    true
                }
            }
            None => true,
        };
        let default_project_path = match self.get_setting(&String::from_str("default_project_path")) {
            Some(v) => v,
            None => String::from_str("~/Documents/Vibing2Projects"),
        };
        let out = Settings { anthropic_api_key: api, theme, auto_save, default_project_path };
        proof {
            assert(out@ =~= load_settings_model(self@.settings));
        }
        out
    }
}

} // verus!
