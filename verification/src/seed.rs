//! Gateway keys declared in the configuration: what is written to the key
//! store at boot and on every reload, and which earlier seeded keys go.
use vstd::prelude::*;
use vstd::string::*;
use crate::config::GatewayKeyConfig;
use crate::security::{
    MasterKey, derive_hash, gateway_key_prefix, key_hash, last_chars, last_n_chars,
    parse_gateway_key,
};
use crate::text::{has_prefix, push_str, str_eq};

verus! {

/// A key to upsert, marked as seeded from the configuration.
pub struct SeedKey {
    pub id: String,
    pub project_id: String,
    pub name: String,
    /// `sk-gw-live-` or `sk-gw-test-`.
    pub prefix: String,
    /// Keyed hash of the plaintext; the plaintext itself is not stored.
    pub hash: Vec<u8>,
    pub last4: String,
    pub scopes: Vec<String>,
}

/// The ids declared for one project: seeded keys of that project with other
/// ids are pruned.
pub struct ProjectKeys {
    pub project_id: String,
    pub ids: Vec<String>,
}

/// What applying the declared keys does, in order: upsert each key, prune
/// each project's seeded keys to the declared ids, and, when no declared key
/// is in the default project, prune all of the default project's seeded keys.
pub struct SeedPlan {
    pub upserts: Vec<SeedKey>,
    pub prunes: Vec<ProjectKeys>,
    pub prune_default: bool,
}

pub open spec fn key_project(k: GatewayKeyConfig, default_project_id: Seq<char>) -> Seq<char> {
    match k.project_id {
        Some(p) => p@,
        None => default_project_id,
    }
}

/// `GatewayKeyConfig::resolve_secret`, as values.
pub open spec fn secret_of(k: GatewayKeyConfig, env_value: Option<Seq<char>>) -> Result<Seq<char>, Seq<char>> {
    if has_prefix(k.secret@, "env://"@) {
        if k.secret@.len() == 6 {
            Err("env:// reference is missing a var name"@)
        } else {
            match env_value {
                Some(v) => Ok(v),
                None => Err("env var '"@ + k.secret@.skip(6) + "' not set or empty"@),
            }
        }
    } else if k.secret@.len() == 0 {
        Err("secret is empty"@)
    } else {
        Ok(k.secret@)
    }
}

/// Why a declared key cannot be seeded, if it cannot.
pub open spec fn key_failure(k: GatewayKeyConfig, env_value: Option<Seq<char>>) -> Option<Seq<char>> {
    match secret_of(k, env_value) {
        Err(e) => Some("gateway_keys[id="@ + k.id@ + "].secret could not be resolved: "@ + e),
        Ok(s) => if gateway_key_prefix(s) is None {
            Some(
                "gateway_keys[id="@ + k.id@
                    + "].secret must start with 'sk-gw-live-' or 'sk-gw-test-'"@,
            )
        } else {
            None
        },
    }
}

/// The failure of the first key that cannot be seeded.
pub open spec fn first_failure(keys: Seq<GatewayKeyConfig>, envs: Seq<Option<Seq<char>>>) -> Option<Seq<char>>
    decreases keys.len(),
{
    if keys.len() == 0 {
        None
    } else {
        match first_failure(keys.drop_last(), envs.drop_last()) {
            Some(m) => Some(m),
            None => key_failure(keys.last(), envs.last()),
        }
    }
}

pub open spec fn secret_value(k: GatewayKeyConfig, env_value: Option<Seq<char>>) -> Seq<char> {
    match secret_of(k, env_value) {
        Ok(s) => s,
        Err(_) => Seq::empty(),
    }
}

/// The row written for a declared key: (id, project, name, prefix, hash,
/// last four characters, scopes).
pub open spec fn seed_row(
    k: GatewayKeyConfig,
    env_value: Option<Seq<char>>,
    master: Seq<u8>,
    default_project_id: Seq<char>,
) -> (Seq<char>, Seq<char>, Seq<char>, Seq<char>, Seq<u8>, Seq<char>, Seq<Seq<char>>) {
    let s = secret_value(k, env_value);
    let prefix = match gateway_key_prefix(s) {
        Some(p) => p,
        None => Seq::empty(),
    };
    (
        k.id@,
        key_project(k, default_project_id),
        k.name@,
        prefix,
        key_hash(master, s),
        last_chars(s, 4),
        strings_view(k.scopes@),
    )
}

pub open spec fn strings_view(v: Seq<String>) -> Seq<Seq<char>> {
    v.map_values(|s: String| s@)
}

pub open spec fn seed_rows(
    keys: Seq<GatewayKeyConfig>,
    envs: Seq<Option<Seq<char>>>,
    master: Seq<u8>,
    default_project_id: Seq<char>,
) -> Seq<(Seq<char>, Seq<char>, Seq<char>, Seq<char>, Seq<u8>, Seq<char>, Seq<Seq<char>>)> {
    Seq::new(keys.len(), |i: int| seed_row(keys[i], envs[i], master, default_project_id))
}

pub open spec fn row_view(k: SeedKey) -> (Seq<char>, Seq<char>, Seq<char>, Seq<char>, Seq<u8>, Seq<char>, Seq<Seq<char>>) {
    (k.id@, k.project_id@, k.name@, k.prefix@, k.hash@, k.last4@, strings_view(k.scopes@))
}

pub open spec fn rows_view(v: Seq<SeedKey>) -> Seq<(Seq<char>, Seq<char>, Seq<char>, Seq<char>, Seq<u8>, Seq<char>, Seq<Seq<char>>)> {
    v.map_values(|k: SeedKey| row_view(k))
}

/// Index of the group for a project.
pub open spec fn group_index(gs: Seq<(Seq<char>, Seq<Seq<char>>)>, p: Seq<char>) -> Option<int>
    decreases gs.len(),
{
    if gs.len() == 0 {
        None
    } else {
        match group_index(gs.drop_last(), p) {
            Some(i) => Some(i),
            None => if gs.last().0 == p {
                Some(gs.len() - 1)
            } else {
                None
            },
        }
    }
}

pub open spec fn add_to_groups(gs: Seq<(Seq<char>, Seq<Seq<char>>)>, p: Seq<char>, id: Seq<char>) -> Seq<
    (Seq<char>, Seq<Seq<char>>),
> {
    match group_index(gs, p) {
        Some(i) => gs.update(i, (p, gs[i].1.push(id))),
        None => gs.push((p, seq![id])),
    }
}

/// The declared ids grouped by project, projects in order of first mention.
pub open spec fn groups_of(keys: Seq<GatewayKeyConfig>, default_project_id: Seq<char>) -> Seq<
    (Seq<char>, Seq<Seq<char>>),
>
    decreases keys.len(),
{
    if keys.len() == 0 {
        Seq::empty()
    } else {
        add_to_groups(
            groups_of(keys.drop_last(), default_project_id),
            key_project(keys.last(), default_project_id),
            keys.last().id@,
        )
    }
}

/// Some declared key is in the default project.
pub open spec fn any_in_default(keys: Seq<GatewayKeyConfig>, default_project_id: Seq<char>) -> bool {
    exists|i: int| 0 <= i < keys.len() && key_project(#[trigger] keys[i], default_project_id) == default_project_id
}

pub open spec fn group_view(g: ProjectKeys) -> (Seq<char>, Seq<Seq<char>>) {
    (g.project_id@, strings_view(g.ids@))
}

pub open spec fn groups_view(v: Seq<ProjectKeys>) -> Seq<(Seq<char>, Seq<Seq<char>>)> {
    v.map_values(|g: ProjectKeys| group_view(g))
}

pub open spec fn env_views(v: Seq<Option<String>>) -> Seq<Option<Seq<char>>> {
    v.map_values(|o: Option<String>| match o {
        Some(s) => Some(s@),
        None => None,
    })
}

fn copy_strings(v: &Vec<String>) -> (r: Vec<String>)
    ensures
        strings_view(r@) == strings_view(v@),
{
    let mut out: Vec<String> = Vec::new();
    let n = v.len();
    for i in 0..n
        invariant
            n == v@.len(),
            strings_view(out@) == strings_view(v@.take(i as int)),
    {
        let ghost before = out@;
        out.push(String::from_str(v[i].as_str()));
        assert(strings_view(out@) =~= strings_view(before).push(v@[i as int]@));
        assert(strings_view(v@.take(i + 1)) =~= strings_view(v@.take(i as int)).push(v@[i as int]@));
    }
    assert(v@.take(n as int) =~= v@);
    out
}

proof fn lemma_group_index_prefix(gs: Seq<(Seq<char>, Seq<Seq<char>>)>, k: int, p: Seq<char>)
    requires
        0 < k <= gs.len(),
        group_index(gs.take(k), p) is Some,
    ensures
        group_index(gs, p) == group_index(gs.take(k), p),
    decreases gs.len() - k,
{
    if k < gs.len() {
        assert(gs.take(k + 1).drop_last() =~= gs.take(k));
        lemma_group_index_prefix(gs, k + 1, p);
    } else {
        assert(gs.take(k) =~= gs);
    }
}

/// Adds a declared id to its project's group.
fn add_to_group(groups: &mut Vec<ProjectKeys>, project: &str, id: &str)
    ensures
        groups_view(final(groups)@) == add_to_groups(groups_view(old(groups)@), project@, id@),
{
    let ghost gv = groups_view(groups@);
    let n = groups.len();
    for i in 0..n
        invariant
            n == groups@.len(),
            gv == groups_view(groups@),
            gv == groups_view(old(groups)@),
            group_index(gv.take(i as int), project@) is None,
    {
        assert(gv.take(i + 1).drop_last() =~= gv.take(i as int));
        if str_eq(groups[i].project_id.as_str(), project) {
            proof {
                lemma_group_index_prefix(gv, i + 1, project@);
            }
            let mut ids = copy_strings(&groups[i].ids);
            let ghost before = strings_view(ids@);
            ids.push(String::from_str(id));
            assert(strings_view(ids@) =~= before.push(id@));
            let g = ProjectKeys { project_id: String::from_str(project), ids };
            groups.set(i, g);
            assert(groups_view(groups@) =~= gv.update(i as int, (project@, gv[i as int].1.push(id@))));
            return;
        }
    }
    proof {
        assert(gv.take(n as int) =~= gv);
    }
    let mut ids: Vec<String> = Vec::new();
    ids.push(String::from_str(id));
    assert(strings_view(ids@) =~= seq![id@]);
    groups.push(ProjectKeys { project_id: String::from_str(project), ids });
    assert(groups_view(groups@) =~= gv.push((project@, seq![id@])));
}

/// Plans the seeding of the declared keys. `env_values[i]` is the value of
/// the variable that key `i`'s `env://` reference names, as read from the
/// environment. The first key that cannot be seeded fails the whole plan,
/// before anything is written.
pub fn plan_seed(
    keys: &Vec<GatewayKeyConfig>,
    env_values: &Vec<Option<String>>,
    master: &MasterKey,
    default_project_id: &str,
) -> (r: Result<SeedPlan, String>)
    requires
        env_values@.len() == keys@.len(),
    ensures
        match first_failure(keys@, env_views(env_values@)) {
            Some(m) => r matches Err(e) && e@ == m,
            None => r matches Ok(p) && rows_view(p.upserts@) == seed_rows(
                keys@,
                env_views(env_values@),
                master.0@,
                default_project_id@,
            ) && groups_view(p.prunes@) == groups_of(keys@, default_project_id@) && p.prune_default
                == !any_in_default(keys@, default_project_id@),
        },
{
    let ghost envs = env_views(env_values@);
    let mut upserts: Vec<SeedKey> = Vec::new();
    let mut groups: Vec<ProjectKeys> = Vec::new();
    let mut in_default = false;
    let n = keys.len();
    for i in 0..n
        invariant
            n == keys@.len(),
            env_values@.len() == n,
            envs == env_views(env_values@),
            first_failure(keys@.take(i as int), envs.take(i as int)) is None,
            rows_view(upserts@) == seed_rows(
                keys@.take(i as int),
                envs.take(i as int),
                master.0@,
                default_project_id@,
            ),
            groups_view(groups@) == groups_of(keys@.take(i as int), default_project_id@),
            in_default == any_in_default(keys@.take(i as int), default_project_id@),
    {
        let k = &keys[i];
        let ghost ks = keys@.take(i + 1);
        let ghost es = envs.take(i + 1);
        assert(ks.drop_last() =~= keys@.take(i as int));
        assert(es.drop_last() =~= envs.take(i as int));
        assert(es.last() == envs[i as int]);
        let env = match &env_values[i] {
            Some(v) => Some(String::from_str(v.as_str())),
            None => None,
        };
        let secret = match k.resolve_secret(env) {
            Ok(s) => s,
            Err(e) => {
                let mut m = String::from_str("gateway_keys[id=");
                push_str(&mut m, k.id.as_str());
                push_str(&mut m, "].secret could not be resolved: ");
                push_str(&mut m, e.as_str());
                proof {
                    lemma_first_failure_prefix(keys@, envs, i + 1);
                }
                return Err(m);
            },
        };
        let prefix = match parse_gateway_key(secret.as_str()) {
            Some(p) => p,
            None => {
                let mut m = String::from_str("gateway_keys[id=");
                push_str(&mut m, k.id.as_str());
                push_str(&mut m, "].secret must start with 'sk-gw-live-' or 'sk-gw-test-'");
                proof {
                    lemma_first_failure_prefix(keys@, envs, i + 1);
                }
                return Err(m);
            },
        };
        let project = match &k.project_id {
            Some(p) => String::from_str(p.as_str()),
            None => String::from_str(default_project_id),
        };
        if str_eq(project.as_str(), default_project_id) {
            in_default = true;
        }
        proof {
            let kp = keys@.take(i + 1);
            let kq = keys@.take(i as int);
            if key_project(keys@[i as int], default_project_id@) == default_project_id@ {
                assert(kp[i as int] == keys@[i as int]);
            }
            assert forall|j: int| 0 <= j < i implies kp[j] == kq[j] by {}
        }
        add_to_group(&mut groups, project.as_str(), k.id.as_str());
        let row = SeedKey {
            id: String::from_str(k.id.as_str()),
            project_id: project,
            name: String::from_str(k.name.as_str()),
            prefix: String::from_str(prefix),
            hash: derive_hash(master, secret.as_str()),
            last4: last_n_chars(secret.as_str(), 4),
            scopes: copy_strings(&k.scopes),
        };
        let ghost before = rows_view(upserts@);
        upserts.push(row);
        assert(rows_view(upserts@) =~= before.push(row_view(row)));
        assert(seed_rows(ks, es, master.0@, default_project_id@) =~= seed_rows(
            keys@.take(i as int),
            envs.take(i as int),
            master.0@,
            default_project_id@,
        ).push(seed_row(keys@[i as int], envs[i as int], master.0@, default_project_id@)));
    }
    assert(keys@.take(n as int) =~= keys@);
    assert(envs.take(n as int) =~= envs);
    Ok(SeedPlan { upserts, prunes: groups, prune_default: !in_default })
}

/// A failure in a prefix is the first failure of the whole.
proof fn lemma_first_failure_prefix(keys: Seq<GatewayKeyConfig>, envs: Seq<Option<Seq<char>>>, k: int)
    requires
        0 < k <= keys.len(),
        keys.len() == envs.len(),
        first_failure(keys.take(k), envs.take(k)) is Some,
    ensures
        first_failure(keys, envs) == first_failure(keys.take(k), envs.take(k)),
    decreases keys.len() - k,
{
    if k < keys.len() {
        assert(keys.take(k + 1).drop_last() =~= keys.take(k));
        assert(envs.take(k + 1).drop_last() =~= envs.take(k));
        lemma_first_failure_prefix(keys, envs, k + 1);
    } else {
        assert(keys.take(k) =~= keys);
        assert(envs.take(k) =~= envs);
    }
}

} // verus!
