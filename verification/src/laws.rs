//! The behavioural laws of the store, proved once over its models: what a
//! save creates or replaces, what a delete leaves behind, how long the
//! listing is, and that settings round-trip through their rows.

use vstd::prelude::*;
use crate::seq_lemmas::lemma_filter_all;
use crate::seq_lemmas::lemma_filter_none;
use crate::seq_lemmas::lemma_filter_push;
use crate::settings::auto_save_of;
use crate::settings::api_key_cell;
use crate::settings::bool_chars;
use crate::settings::has_key;
use crate::settings::lemma_upsert_preserves;
use crate::settings::lemma_upsert_sets;
use crate::settings::lemma_upsert_unique;
use crate::settings::load_settings_model;
use crate::settings::save_settings_model;
use crate::settings::setting_value;
use crate::settings::unique_keys;
use crate::settings::upsert_model;
use crate::store::StoreV;
use crate::store::delete_project_model;
use crate::store::dto_of;
use crate::store::load_project_model;
use crate::store::local_of;
use crate::store::msg_of;
use crate::store::new_project_row;
use crate::store::new_rows;
use crate::store::resolved_id;
use crate::store::save_project_model;
use crate::types::MessageV;
use crate::types::SaveProjectRequestV;
use crate::types::SettingV;
use crate::types::SettingsV;

verus! {

/// Saving a request that asks for no identifier, under a fresh generated
/// one, creates a project that loads back with exactly the submitted
/// name, type and messages, in submission order.
pub proof fn lemma_save_new_then_load(
    s: StoreV,
    req: SaveProjectRequestV,
    gen: Seq<char>,
    now: u64,
)
    requires
        s.wf(),
        req.project_id is None,
        !s.has_project(gen),
    ensures
        save_project_model(s, req, gen, now).has_project(gen),
        load_project_model(save_project_model(s, req, gen, now), gen).project.name == req.name,
        load_project_model(save_project_model(s, req, gen, now), gen).project.project_type
            == req.project_type,
        load_project_model(save_project_model(s, req, gen, now), gen).messages == req.messages,
{
    let t = save_project_model(s, req, gen, now);
    let row = new_project_row(req, gen, now);
    let n = s.projects.len() as int;
    assert(t.projects[n] == row);
    assert(t.projects[n].id == gen);
    assert(t.has_project(gen));
    let w = t.project_index(gen);
    if w != n {
        assert(t.projects[w].id == gen);
        assert(t.projects[w].id == s.projects[w].id);
        assert(s.has_project(gen));
    }
    assert(t.project_of(gen) == row);

    let rows = new_rows(req.messages, gen, now);
    assert forall|i: int| 0 <= i < s.messages.len()
        implies !msg_of(gen)(#[trigger] s.messages[i]) by {
        if s.messages[i].project_id == gen {
            assert(s.has_project(s.messages[i].project_id));
        }
    }
    lemma_filter_none(s.messages, msg_of(gen));
    Seq::<crate::types::MessageRecordV>::filter_distributes_over_add(
        s.messages, rows, msg_of(gen));
    assert forall|i: int| 0 <= i < rows.len()
        implies msg_of(gen)(#[trigger] rows[i]) by {
        assert(rows[i] == crate::store::message_row(req.messages[i], gen, (now + i) as u64));
    }
    lemma_filter_all(rows, msg_of(gen));
    assert(t.messages_of(gen) =~= rows);
    assert(t.messages_of(gen).map_values(dto_of()) =~= req.messages) by {
        assert forall|i: int| 0 <= i < req.messages.len()
            implies rows.map_values(dto_of())[i] == req.messages[i] by {
            assert(rows[i] == crate::store::message_row(req.messages[i], gen, (now + i) as u64));
            assert(dto_of()(rows[i]) =~= req.messages[i]);
        }
    }
}

/// Saving under an existing identifier replaces all of that project's
/// stored messages with the submitted list: afterwards the project holds
/// exactly as many messages as the list, not the old plus the new.
pub proof fn lemma_save_replaces_messages(
    s: StoreV,
    req: SaveProjectRequestV,
    gen: Seq<char>,
    now: u64,
)
    requires
        s.wf(),
        s.has_project(resolved_id(req, gen)),
    ensures
        save_project_model(s, req, gen, now).messages_of(resolved_id(req, gen))
            == new_rows(req.messages, resolved_id(req, gen), now),
        save_project_model(s, req, gen, now).messages_of(resolved_id(req, gen)).len()
            == req.messages.len(),
{
    let rid = resolved_id(req, gen);
    let t = save_project_model(s, req, gen, now);
    let kept = s.messages.filter(crate::store::msg_not_of(rid));
    let rows = new_rows(req.messages, rid, now);
    broadcast use vstd::seq_lib::group_filter_ensures;

    assert forall|i: int| 0 <= i < kept.len()
        implies !msg_of(rid)(#[trigger] kept[i]) by {
        assert(crate::store::msg_not_of(rid)(kept[i]));
    }
    lemma_filter_none(kept, msg_of(rid));
    Seq::<crate::types::MessageRecordV>::filter_distributes_over_add(kept, rows, msg_of(rid));
    assert forall|i: int| 0 <= i < rows.len()
        implies msg_of(rid)(#[trigger] rows[i]) by {
        assert(rows[i] == crate::store::message_row(req.messages[i], rid, (now + i) as u64));
    }
    lemma_filter_all(rows, msg_of(rid));
    assert(t.messages_of(rid) =~= rows);
}

/// After a delete the identifier is gone: a load or a second delete on
/// the same identifier reports `NotFound` rather than failing.
pub proof fn lemma_delete_removes(s: StoreV, id: Seq<char>)
    requires
        s.wf(),
        s.has_project(id),
    ensures
        !delete_project_model(s, id).has_project(id),
        delete_project_model(s, id).messages_of(id).len() == 0,
{
    let t = delete_project_model(s, id);
    let w = s.project_index(id);
    assert(s.projects[w].id == id);
    assert forall|i: int| 0 <= i < t.projects.len()
        implies (#[trigger] t.projects[i].id) != id by {
        s.projects.remove_ensures(w);
        if i < w {
            assert(t.projects[i] == s.projects[i]);
            if s.projects[i].id == id {
                assert(s.projects[i].id != s.projects[w].id);
            }
        } else {
            assert(t.projects[i] == s.projects[i + 1]);
            if s.projects[i + 1].id == id {
                assert(s.projects[w].id != s.projects[i + 1].id);
            }
        }
    }
    broadcast use vstd::seq_lib::group_filter_ensures;

    assert forall|i: int| 0 <= i < t.messages.len()
        implies !msg_of(id)(#[trigger] t.messages[i]) by {
        assert(crate::store::msg_not_of(id)(t.messages[i]));
    }
    lemma_filter_none(t.messages, msg_of(id));
}

/// The listing has exactly one entry per stored project of the local
/// user; on an empty store it is empty.
pub proof fn lemma_listing_length(r: Seq<crate::types::ProjectV>, s: StoreV)
    requires
        r.to_multiset() == s.projects.filter(local_of()).to_multiset(),
    ensures
        r.len() == s.projects.filter(local_of()).len(),
        s.projects.len() == 0 ==> r.len() == 0,
{
    vstd::seq_lib::to_multiset_len(r);
    vstd::seq_lib::to_multiset_len(s.projects.filter(local_of()));
    broadcast use vstd::seq_lib::group_filter_ensures;

    assert(s.projects.filter(local_of()).len() <= s.projects.len());
}

/// Saving a new project under a fresh identifier grows the local user's
/// listing by exactly one entry.
pub proof fn lemma_save_new_grows_listing(
    s: StoreV,
    req: SaveProjectRequestV,
    gen: Seq<char>,
    now: u64,
)
    requires
        s.wf(),
        !s.has_project(resolved_id(req, gen)),
    ensures
        save_project_model(s, req, gen, now).projects.filter(local_of()).len()
            == s.projects.filter(local_of()).len() + 1,
{
    let rid = resolved_id(req, gen);
    let row = new_project_row(req, rid, now);
    lemma_filter_push(s.projects, row, local_of());
    assert(local_of()(row));
}

/// The startup migration is idempotent: running it on a store it already
/// migrated changes nothing.
pub proof fn lemma_migrate_idempotent(s: StoreV, u: crate::types::UserV)
    ensures
        crate::store::migrate_model(crate::store::migrate_model(s, u), u)
            == crate::store::migrate_model(s, u),
{
}

/// Saving settings and loading them back yields the same settings, for
/// every combination of fields except an api key that is the empty
/// string, which is stored as the "unset" sentinel and reads back as
/// absent.
pub proof fn lemma_settings_round_trip(rows: Seq<SettingV>, v: SettingsV, now: u64)
    requires
        unique_keys(rows),
        v.anthropic_api_key != Some(Seq::<char>::empty()),
    ensures
        load_settings_model(save_settings_model(rows, v, now)) == v,
{
    reveal_strlit("anthropic_api_key");
    reveal_strlit("theme");
    reveal_strlit("auto_save");
    reveal_strlit("default_project_path");
    reveal_strlit("true");
    reveal_strlit("false");
    let k1 = "anthropic_api_key"@;
    let k2 = "theme"@;
    let k3 = "auto_save"@;
    let k4 = "default_project_path"@;
    assert(k1.len() == 17 && k2.len() == 5 && k3.len() == 9 && k4.len() == 20);
    let r1 = upsert_model(rows, k1, api_key_cell(v.anthropic_api_key), now);
    let r2 = upsert_model(r1, k2, v.theme, now);
    let r3 = upsert_model(r2, k3, bool_chars(v.auto_save), now);
    let r4 = upsert_model(r3, k4, v.default_project_path, now);
    lemma_upsert_unique(rows, k1, api_key_cell(v.anthropic_api_key), now);
    lemma_upsert_unique(r1, k2, v.theme, now);
    lemma_upsert_unique(r2, k3, bool_chars(v.auto_save), now);

    lemma_upsert_sets(rows, k1, api_key_cell(v.anthropic_api_key), now);
    lemma_upsert_preserves(r1, k2, v.theme, now, k1);
    lemma_upsert_preserves(r2, k3, bool_chars(v.auto_save), now, k1);
    lemma_upsert_preserves(r3, k4, v.default_project_path, now, k1);
    assert(setting_value(r4, k1) == Some(api_key_cell(v.anthropic_api_key)));

    lemma_upsert_sets(r1, k2, v.theme, now);
    lemma_upsert_preserves(r2, k3, bool_chars(v.auto_save), now, k2);
    lemma_upsert_preserves(r3, k4, v.default_project_path, now, k2);
    assert(setting_value(r4, k2) == Some(v.theme));

    lemma_upsert_sets(r2, k3, bool_chars(v.auto_save), now);
    lemma_upsert_preserves(r3, k4, v.default_project_path, now, k3);
    assert(setting_value(r4, k3) == Some(bool_chars(v.auto_save)));

    lemma_upsert_sets(r3, k4, v.default_project_path, now);
    assert(setting_value(r4, k4) == Some(v.default_project_path));

    assert(auto_save_of(Some(bool_chars(v.auto_save))) == v.auto_save) by {
        if !v.auto_save {
            assert("true"@.len() == 4 && "false"@.len() == 5);
            assert("false"@ != "true"@);
        }
    }
    match v.anthropic_api_key {
        Some(t) => {
            if t.len() == 0 {
                assert(t =~= Seq::<char>::empty());
            }
            assert(t.len() > 0);
        }
        None => {}
    }
    assert(load_settings_model(r4) =~= v);
}

/// A pristine store reads back as the documented defaults: no api key,
/// theme `"dark"`, auto-save on, and the documents folder as the path.
pub proof fn lemma_pristine_defaults(rows: Seq<SettingV>)
    requires
        rows.len() == 0,
    ensures
        load_settings_model(rows) == (SettingsV {
            anthropic_api_key: None,
            theme: "dark"@,
            auto_save: true,
            default_project_path: "~/Documents/Vibing2Projects"@,
        }),
{
    assert(!has_key(rows, "anthropic_api_key"@));
    assert(!has_key(rows, "theme"@));
    assert(!has_key(rows, "auto_save"@));
    assert(!has_key(rows, "default_project_path"@));
    assert(load_settings_model(rows) =~= (SettingsV {
        anthropic_api_key: None,
        theme: "dark"@,
        auto_save: true,
        default_project_path: "~/Documents/Vibing2Projects"@,
    }));
}

} // verus!
