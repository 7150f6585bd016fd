//! How a new configuration of the edge process is put in force: the running process takes it first,
//! then it is stored. Where that fails, what was in force before is restored.
use vstd::prelude::*;

use crate::json;
use crate::json::parse_json;
use crate::order;
use crate::order::sort_unique;
use crate::picked;
use crate::text;
use crate::text::{same, starts_with, trim};

verus! {

/// One of the two configurations.
#[derive(Debug, Clone, Copy, PartialEq, Eq, Structural)]
pub enum Which {
    Old,
    New,
}

/// What is to be done next. Where a file was not there before, restoring it means to remove it.
#[derive(Debug, Clone, Copy, PartialEq, Eq, Structural)]
pub enum ApplyAction {
    /// Have the running process load a configuration.
    Load(Which),
    /// Write the file that the process starts with.
    WriteConfig(Which),
    /// Remove the file that the process starts with.
    RemoveConfig,
    /// Write the file that records what is in force.
    WriteApplied(Which),
    /// Remove the file that records what is in force.
    RemoveApplied,
    /// Nothing more: whether the new configuration is in force.
    Finish(bool),
}

/// What was there before: the two files, where they could be read.
#[derive(Debug, Clone, Copy, PartialEq, Eq, Structural)]
pub struct Before {
    pub config: bool,
    pub applied: bool,
}

/// The first thing to do: the running process checks and loads the new configuration.
pub fn begin_apply() -> (r: ApplyAction)
    ensures
        r == ApplyAction::Load(Which::New),
{
    ApplyAction::Load(Which::New)
}

/// What follows an action, given whether it succeeded. The files are touched only once the process
/// has taken the configuration, and a failure to restore one thing does not keep the rest from being
/// restored.
pub open spec fn following(before: Before, action: ApplyAction, ok: bool) -> ApplyAction {
    let restore_applied = if before.applied {
        ApplyAction::WriteApplied(Which::Old)
    } else {
        ApplyAction::RemoveApplied
    };
    let roll_back = if before.config {
        ApplyAction::Load(Which::Old)
    } else {
        ApplyAction::RemoveConfig
    };
    match action {
        ApplyAction::Load(Which::New) => if ok {
            ApplyAction::WriteConfig(Which::New)
        } else {
            ApplyAction::Finish(false)
        },
        ApplyAction::WriteConfig(Which::New) => if ok {
            ApplyAction::WriteApplied(Which::New)
        } else {
            roll_back
        },
        ApplyAction::WriteApplied(Which::New) => if ok {
            ApplyAction::Finish(true)
        } else {
            roll_back
        },
        ApplyAction::Load(Which::Old) => ApplyAction::WriteConfig(Which::Old),
        ApplyAction::WriteConfig(Which::Old) => restore_applied,
        ApplyAction::RemoveConfig => restore_applied,
        ApplyAction::WriteApplied(Which::Old) => ApplyAction::Finish(false),
        ApplyAction::RemoveApplied => ApplyAction::Finish(false),
        ApplyAction::Finish(done) => ApplyAction::Finish(done),
    }
}

/// What follows an action, given whether it succeeded.
pub fn apply_step(before: Before, action: ApplyAction, ok: bool) -> (r: ApplyAction)
    ensures
        r == following(before, action, ok),
{
    match action {
        ApplyAction::Load(Which::New) => if ok {
            ApplyAction::WriteConfig(Which::New)
        } else {
            ApplyAction::Finish(false)
        },
        ApplyAction::WriteConfig(Which::New) => if ok {
            ApplyAction::WriteApplied(Which::New)
        } else if before.config {
            ApplyAction::Load(Which::Old)
        } else {
            ApplyAction::RemoveConfig
        },
        ApplyAction::WriteApplied(Which::New) => if ok {
            ApplyAction::Finish(true)
        } else if before.config {
            ApplyAction::Load(Which::Old)
        } else {
            ApplyAction::RemoveConfig
        },
        ApplyAction::Load(Which::Old) => ApplyAction::WriteConfig(Which::Old),
        ApplyAction::WriteConfig(Which::Old) | ApplyAction::RemoveConfig => if before.applied {
            ApplyAction::WriteApplied(Which::Old)
        } else {
            ApplyAction::RemoveApplied
        },
        ApplyAction::WriteApplied(Which::Old) => ApplyAction::Finish(false),
        ApplyAction::RemoveApplied => ApplyAction::Finish(false),
        ApplyAction::Finish(done) => ApplyAction::Finish(done),
    }
}

/// What is in force: in the running process and in the two files; and whose credentials are
/// remembered as those in force.
pub ghost struct Edge {
    pub running: Which,
    pub config: Option<Which>,
    pub applied: Option<Which>,
    pub credentials: Which,
}

/// What is in force after an action, given whether it succeeded; one that failed changes nothing.
pub open spec fn effect(edge: Edge, action: ApplyAction, ok: bool) -> Edge {
    if !ok {
        edge
    } else {
        match action {
            ApplyAction::Load(which) => Edge { running: which, ..edge },
            ApplyAction::WriteConfig(which) => Edge { config: Some(which), ..edge },
            ApplyAction::RemoveConfig => Edge { config: None, ..edge },
            ApplyAction::WriteApplied(Which::New) => Edge {
                applied: Some(Which::New),
                credentials: Which::New,
                ..edge
            },
            ApplyAction::WriteApplied(Which::Old) => Edge { applied: Some(Which::Old), ..edge },
            ApplyAction::RemoveApplied => Edge { applied: None, ..edge },
            ApplyAction::Finish(_) => edge,
        }
    }
}

/// The digest of the credentials that is remembered at the end of a run: the new one where the new
/// configuration is in force, else the one that was.
pub fn remembered_credentials(
    old: Option<String>,
    new: Option<String>,
    action: ApplyAction,
) -> (r: Option<String>)
    ensures
        r == (if action == ApplyAction::Finish(true) {
            new
        } else {
            old
        }),
{
    match action {
        ApplyAction::Finish(true) => new,
        _ => old,
    }
}

/// Where a run ends, given whether each action of it succeeded.
pub open spec fn run(before: Before, edge: Edge, action: ApplyAction, outcomes: Seq<bool>) -> (
    Edge,
    ApplyAction,
)
    decreases outcomes.len(),
{
    if outcomes.len() == 0 || action is Finish {
        (edge, action)
    } else {
        run(
            before,
            effect(edge, action, outcomes[0]),
            following(before, action, outcomes[0]),
            outcomes.skip(1),
        )
    }
}

/// What is in force at the start.
pub open spec fn at_start(before: Before) -> Edge {
    Edge {
        running: Which::Old,
        config: if before.config {
            Some(Which::Old)
        } else {
            None
        },
        applied: if before.applied {
            Some(Which::Old)
        } else {
            None
        },
        credentials: Which::Old,
    }
}

/// Whether an action restores what was there before.
pub open spec fn restores(action: ApplyAction) -> bool {
    match action {
        ApplyAction::Load(which) => which == Which::Old,
        ApplyAction::WriteConfig(which) => which == Which::Old,
        ApplyAction::WriteApplied(which) => which == Which::Old,
        ApplyAction::RemoveConfig => true,
        ApplyAction::RemoveApplied => true,
        ApplyAction::Finish(_) => false,
    }
}

/// Whether each action of a run that restores something succeeds.
pub open spec fn restoring_works(
    before: Before,
    action: ApplyAction,
    outcomes: Seq<bool>,
) -> bool
    decreases outcomes.len(),
{
    if outcomes.len() == 0 || action is Finish {
        true
    } else {
        (restores(action) ==> outcomes[0]) && restoring_works(
            before,
            following(before, action, outcomes[0]),
            outcomes.skip(1),
        )
    }
}

/// A run always ends: after the sixth action there is nothing more to do.
pub proof fn applying_ends(before: Before, edge: Edge, outcomes: Seq<bool>)
    requires
        outcomes.len() >= 6,
    ensures
        run(before, edge, ApplyAction::Load(Which::New), outcomes).1 is Finish,
{
    reveal_with_fuel(run, 7);
    assert(outcomes.skip(1).skip(1).len() == outcomes.len() - 2);
    assert(outcomes.skip(1).skip(1).skip(1).len() == outcomes.len() - 3);
    assert(outcomes.skip(1).skip(1).skip(1).skip(1).len() == outcomes.len() - 4);
    assert(outcomes.skip(1).skip(1).skip(1).skip(1).skip(1).len() == outcomes.len() - 5);
}

/// A configuration that is in force is in force everywhere: in the process and in both files.
pub proof fn success_is_complete(before: Before, outcomes: Seq<bool>)
    requires
        run(before, at_start(before), ApplyAction::Load(Which::New), outcomes).1
            == ApplyAction::Finish(true),
    ensures
        run(before, at_start(before), ApplyAction::Load(Which::New), outcomes).0 == (Edge {
            running: Which::New,
            config: Some(Which::New),
            applied: Some(Which::New),
            credentials: Which::New,
        }),
{
    lemma_run(before, at_start(before), ApplyAction::Load(Which::New), outcomes);
}

/// A configuration that is refused, or that cannot be stored, leaves both files as they were, as far
/// as they can be restored. So does the running process, where there is a file to restore it from or
/// where it has refused the configuration itself.
pub proof fn failures_keep_the_old_configuration(before: Before, outcomes: Seq<bool>)
    requires
        run(before, at_start(before), ApplyAction::Load(Which::New), outcomes).1
            == ApplyAction::Finish(false),
        restoring_works(before, ApplyAction::Load(Which::New), outcomes),
    ensures
        ({
            let end = run(before, at_start(before), ApplyAction::Load(Which::New), outcomes).0;
            &&& end.config == at_start(before).config
            &&& end.applied == at_start(before).applied
            &&& before.config || !outcomes[0] ==> end.running == Which::Old
        }),
{
    lemma_run(before, at_start(before), ApplyAction::Load(Which::New), outcomes);
    lemma_kept(before, outcomes);
}

/// A configuration that the running process refuses ends the run at once: the process, both files
/// and the remembered credentials are as they were.
pub proof fn refused_loads_change_nothing(before: Before, outcomes: Seq<bool>)
    requires
        outcomes.len() > 0,
        !outcomes[0],
    ensures
        run(before, at_start(before), ApplyAction::Load(Which::New), outcomes) == (
            at_start(before),
            ApplyAction::Finish(false),
        ),
{
    reveal_with_fuel(run, 2);
}

/// The credentials are remembered as those in force with success alone, so that a change that
/// failed is tried again.
pub proof fn credentials_are_remembered_with_success_alone(before: Before, outcomes: Seq<bool>)
    ensures
        ({
            let (end, action) = run(
                before,
                at_start(before),
                ApplyAction::Load(Which::New),
                outcomes,
            );
            end.credentials == Which::New <==> action == ApplyAction::Finish(true)
        }),
{
    lemma_run(before, at_start(before), ApplyAction::Load(Which::New), outcomes);
}

/// What has to hold before an action of a run that began at the start.
pub open spec fn on_the_way(before: Before, edge: Edge, action: ApplyAction) -> bool {
    let start = at_start(before);
    match action {
        ApplyAction::Load(Which::New) => edge == start,
        ApplyAction::WriteConfig(Which::New) => edge == (Edge { running: Which::New, ..start }),
        ApplyAction::WriteApplied(Which::New) => edge == (Edge {
            running: Which::New,
            config: Some(Which::New),
            ..start
        }),
        ApplyAction::Finish(true) => edge == (Edge {
            running: Which::New,
            config: Some(Which::New),
            applied: Some(Which::New),
            credentials: Which::New,
        }),
        _ => edge.credentials == Which::Old,
    }
}

proof fn lemma_run(
    before: Before,
    edge: Edge,
    action: ApplyAction,
    outcomes: Seq<bool>,
)
    requires
        on_the_way(before, edge, action),
    ensures
        on_the_way(
            before,
            run(before, edge, action, outcomes).0,
            run(before, edge, action, outcomes).1,
        ),
    decreases outcomes.len(),
{
    if outcomes.len() > 0 && !(action is Finish) {
        let next = following(before, action, outcomes[0]);
        let after = effect(edge, action, outcomes[0]);
        assert(on_the_way(before, after, next));
        lemma_run(before, after, next, outcomes.skip(1));
    }
}

/// What has to hold before an action of a run in which restoring works.
pub open spec fn on_the_way_back(before: Before, edge: Edge, action: ApplyAction) -> bool {
    let start = at_start(before);
    let running_restored = before.config ==> edge.running == Which::Old;
    match action {
        ApplyAction::Load(Which::Old) => before.config && edge.applied == start.applied,
        ApplyAction::RemoveConfig => !before.config && edge.applied == start.applied,
        ApplyAction::WriteConfig(Which::Old) => before.config && edge.applied == start.applied
            && running_restored,
        ApplyAction::WriteApplied(Which::Old) => before.applied && edge.config == start.config
            && running_restored,
        ApplyAction::RemoveApplied => !before.applied && edge.config == start.config
            && running_restored,
        ApplyAction::Finish(false) => edge.config == start.config && edge.applied == start.applied
            && running_restored,
        _ => on_the_way(before, edge, action),
    }
}

proof fn lemma_run_back(before: Before, edge: Edge, action: ApplyAction, outcomes: Seq<bool>)
    requires
        on_the_way_back(before, edge, action),
        restoring_works(before, action, outcomes),
    ensures
        on_the_way_back(
            before,
            run(before, edge, action, outcomes).0,
            run(before, edge, action, outcomes).1,
        ),
    decreases outcomes.len(),
{
    if outcomes.len() > 0 && !(action is Finish) {
        let next = following(before, action, outcomes[0]);
        let after = effect(edge, action, outcomes[0]);
        assert(on_the_way_back(before, after, next));
        lemma_run_back(before, after, next, outcomes.skip(1));
    }
}

proof fn lemma_kept(before: Before, outcomes: Seq<bool>)
    requires
        run(before, at_start(before), ApplyAction::Load(Which::New), outcomes).1
            == ApplyAction::Finish(false),
        restoring_works(before, ApplyAction::Load(Which::New), outcomes),
    ensures
        ({
            let end = run(before, at_start(before), ApplyAction::Load(Which::New), outcomes).0;
            &&& end.config == at_start(before).config
            &&& end.applied == at_start(before).applied
            &&& before.config || !outcomes[0] ==> end.running == Which::Old
        }),
{
    lemma_run_back(before, at_start(before), ApplyAction::Load(Which::New), outcomes);
    if outcomes.len() > 0 && !outcomes[0] {
        assert(run(
            before,
            at_start(before),
            ApplyAction::Finish(false),
            outcomes.skip(1),
        ) == (at_start(before), ApplyAction::Finish(false)));
    }
}

/// Whether the edge process starts with what was in force before: where that was stored and can be
/// read. A configuration that was never checked does not take its place.
pub fn starts_with_applied(applied: Option<&str>) -> (r: bool)
    ensures
        r == (applied matches Some(stored) && json::json_of(stored@) is Some),
{
    match applied {
        Some(stored) => parse_json(stored).is_some(),
        None => false,
    }
}

/// The tokens in the files of some domains, given the first `n` of their names in order: those that
/// are empty are passed over.
pub open spec fn tokens_in(
    files: Seq<(String, String)>,
    names: Seq<Seq<char>>,
    n: int,
) -> Seq<(Seq<char>, Seq<char>)>
    decreases n,
{
    if n <= 0 {
        Seq::empty()
    } else {
        match content_from(files, names[n - 1], 0) {
            Some(content) if text::trimmed(content).len() > 0 => tokens_in(files, names, n - 1).push(
                (names[n - 1], text::trimmed(content)),
            ),
            _ => tokens_in(files, names, n - 1),
        }
    }
}

/// The content of the first file from position `i` on with a name.
pub open spec fn content_from(files: Seq<(String, String)>, name: Seq<char>, i: int) -> Option<Seq<char>>
    decreases files.len() - i,
{
    if i < 0 || i >= files.len() {
        None
    } else if files[i].0@ == name {
        Some(files[i].1@)
    } else {
        content_from(files, name, i + 1)
    }
}

/// The names of some files.
pub open spec fn names_of(files: Seq<(String, String)>) -> Seq<Seq<char>> {
    Seq::new(files.len(), |i: int| files[i].0@)
}

fn find_content(files: &Vec<(String, String)>, name: &str) -> (r: Option<String>)
    ensures
        text::opt(r) == content_from(files@, name@, 0),
{
    let mut i: usize = 0;
    while i < files.len()
        invariant
            i <= files@.len(),
            content_from(files@, name@, 0) == content_from(files@, name@, i as int),
        decreases files@.len() - i,
    {
        if same(files[i].0.as_str(), name) {
            return Some(files[i].1.clone());
        }
        i = i + 1;
    }
    None
}

/// The tokens of domains that are kept in a file each, given the name of each domain with the
/// content of its file: in the order of the names, without those that are empty.
pub fn read_domain_tokens(files: &Vec<(String, String)>) -> (r: Vec<(String, String)>)
    ensures
        ({
            let names = order::sorted_set(names_of(files@));
            Seq::new(r@.len(), |i: int| (r@[i].0@, r@[i].1@)) == tokens_in(
                files@,
                names,
                names.len() as int,
            )
        }),
{
    let mut ids: Vec<String> = Vec::new();
    let mut i: usize = 0;
    while i < files.len()
        invariant
            i <= files@.len(),
            ids@.len() == i,
            forall|j: int| 0 <= j < i ==> (#[trigger] ids@[j])@ == files@[j].0@,
        decreases files@.len() - i,
    {
        ids.push(files[i].0.clone());
        i = i + 1;
    }
    let sorted: Vec<String> = sort_unique(&ids);
    let ghost names = text::views(sorted@);
    proof {
        assert(text::views(ids@) =~= names_of(files@));
        assert(order::is_sorted_set(names, names_of(files@)));
        order::lemma_sorted_set(names, names_of(files@));
    }
    let mut tokens: Vec<(String, String)> = Vec::new();
    i = 0;
    assert(Seq::new(tokens@.len(), |i: int| (tokens@[i].0@, tokens@[i].1@)) =~= tokens_in(
        files@,
        names,
        0,
    ));
    while i < sorted.len()
        invariant
            i <= sorted@.len(),
            names == text::views(sorted@),
            Seq::new(tokens@.len(), |i: int| (tokens@[i].0@, tokens@[i].1@)) == tokens_in(
                files@,
                names,
                i as int,
            ),
        decreases sorted@.len() - i,
    {
        assert(names[i as int] == sorted@[i as int]@);
        if let Some(content) = find_content(files, sorted[i].as_str()) {
            let token: String = trim(content.as_str());
            if !token.as_str().is_empty() {
                let ghost held = Seq::new(
                    tokens@.len(),
                    |i: int| (tokens@[i].0@, tokens@[i].1@),
                );
                let ghost one = (names[i as int], token@);
                tokens.push((sorted[i].clone(), token));
                assert(Seq::new(tokens@.len(), |i: int| (tokens@[i].0@, tokens@[i].1@))
                    =~= held.push(one));
            }
        }
        i = i + 1;
    }
    tokens
}

/// The name of the first file from position `i` on that keeps a token.
pub open spec fn snapshot_from(files: Seq<(String, Option<String>)>, token: Seq<char>, i: int) -> Option<
    int,
>
    decreases files.len() - i,
{
    if i < 0 || i >= files.len() {
        None
    } else if text::has_prefix(files[i].0@, "credential-"@) && text::opt(files[i].1) == Some(token) {
        Some(i)
    } else {
        snapshot_from(files, token, i + 1)
    }
}

/// The file that already keeps a token, given the files of a domain with their contents; a new one is
/// written where there is none.
pub fn snapshot_token(files: &Vec<(String, Option<String>)>, token: &str) -> (r: Option<String>)
    ensures
        match r {
            Some(name) => snapshot_from(files@, token@, 0) matches Some(k) && name@
                == files@[k].0@,
            None => snapshot_from(files@, token@, 0) is None,
        },
{
    let mut i: usize = 0;
    while i < files.len()
        invariant
            i <= files@.len(),
            snapshot_from(files@, token@, 0) == snapshot_from(files@, token@, i as int),
        decreases files@.len() - i,
    {
        if starts_with(files[i].0.as_str(), "credential-") && text::is_text(&files[i].1, token) {
            return Some(files[i].0.clone());
        }
        i = i + 1;
    }
    None
}

/// Where every step works, the new configuration is in force after three of them.
pub proof fn applying_succeeds_where_every_step_works(
    before: Before,
    edge: Edge,
    outcomes: Seq<bool>,
)
    requires
        outcomes.len() >= 3,
        outcomes[0] && outcomes[1] && outcomes[2],
    ensures
        run(before, edge, ApplyAction::Load(Which::New), outcomes).1 == ApplyAction::Finish(true),
        run(before, edge, ApplyAction::Load(Which::New), outcomes).0 == (Edge {
            running: Which::New,
            config: Some(Which::New),
            applied: Some(Which::New),
            credentials: Which::New,
        }),
{
    reveal_with_fuel(run, 4);
    assert(outcomes.skip(1)[0] == outcomes[1]);
    assert(outcomes.skip(1).skip(1)[0] == outcomes[2]);
}

/// The content of a file is found by its name.
pub proof fn files_are_found_by_their_name(files: Seq<(String, String)>, name: Seq<char>, i: int)
    requires
        0 <= i <= files.len(),
    ensures
        content_from(files, name, i) is Some ==> exists|k: int|
            i <= k < files.len() && (#[trigger] files[k]).0@ == name && content_from(files, name, i)
                == Some(files[k].1@),
        content_from(files, name, i) is None <==> forall|k: int|
            i <= k < files.len() ==> (#[trigger] files[k]).0@ != name,
    decreases files.len() - i,
{
    if i < files.len() {
        files_are_found_by_their_name(files, name, i + 1);
        if content_from(files, name, i) is Some && files[i].0@ != name {
            let k = choose|k: int|
                i + 1 <= k < files.len() && (#[trigger] files[k]).0@ == name && content_from(
                    files,
                    name,
                    i + 1,
                ) == Some(files[k].1@);
            assert(files[k].0@ == name);
        }
    }
}

proof fn lemma_picks_tokens(files: Seq<(String, String)>, names: Seq<Seq<char>>, n: int, keep: spec_fn(int) -> bool, value: spec_fn(int) -> (Seq<char>, Seq<char>))
    requires
        forall|i: int|
            0 <= i < n ==> #[trigger] keep(i) == (content_from(files, names[i], 0) is Some && text::trimmed(content_from(files, names[i], 0)->0).len() > 0) && value(i) == ((names[i], text::trimmed(content_from(files, names[i], 0)->0))),
    ensures
        tokens_in(files, names, n) == picked::picked(keep, value, n),
    decreases n,
{
    if n > 0 {
        assert(keep(n - 1) || !keep(n - 1));
        lemma_picks_tokens(files, names, n - 1, keep, value);
    }
}

/// The tokens that are read are those of the named files that are not blank, without white space round
/// them.
pub proof fn tokens_are_read_from_their_files(files: Seq<(String, String)>, names: Seq<Seq<char>>)
    ensures
        forall|token: (Seq<char>, Seq<char>)| #[trigger]
            tokens_in(files, names, names.len() as int).contains(token) <==> exists|i: int|
                0 <= i < names.len() && #[trigger] names[i] == token.0 && content_from(files, token.0, 0) is Some
                    && text::trimmed(content_from(files, token.0, 0)->0) == token.1 && token.1.len()
                    > 0,
{
    let n = names.len() as int;
    let keep = |i: int| content_from(files, names[i], 0) is Some && text::trimmed(content_from(files, names[i], 0)->0).len() > 0;
    let value = |i: int| (names[i], text::trimmed(content_from(files, names[i], 0)->0));
    lemma_picks_tokens(files, names, n, keep, value);
    assert forall|token: (Seq<char>, Seq<char>)| #[trigger] tokens_in(files, names, n).contains(token) <==> exists|i: int|
        0 <= i < names.len() && #[trigger] names[i] == token.0 && content_from(files, token.0, 0) is Some
                    && text::trimmed(content_from(files, token.0, 0)->0) == token.1 && token.1.len()
                    > 0 by {
        picked::lemma_picked_contains(keep, value, n, token);
        if tokens_in(files, names, n).contains(token) {
            let i = choose|i: int| 0 <= i < n && #[trigger] keep(i) && value(i) == token;
            assert(names[i] == names[i]);
        }
        if exists|i: int| 0 <= i < names.len() && #[trigger] names[i] == token.0 && content_from(files, token.0, 0) is Some
                    && text::trimmed(content_from(files, token.0, 0)->0) == token.1 && token.1.len()
                    > 0 {
            let i = choose|i: int| 0 <= i < names.len() && #[trigger] names[i] == token.0 && content_from(files, token.0, 0) is Some
                    && text::trimmed(content_from(files, token.0, 0)->0) == token.1 && token.1.len()
                    > 0;
            assert(keep(i) && value(i) == token);
        }
    }
}

/// A token that is stored already is found under the name of a credential.
pub proof fn stored_tokens_are_found(files: Seq<(String, Option<String>)>, token: Seq<char>, i: int)
    requires
        0 <= i <= files.len(),
    ensures
        snapshot_from(files, token, i) is Some ==> {
            let k = snapshot_from(files, token, i)->0;
            i <= k < files.len() && text::has_prefix(files[k].0@, "credential-"@) && text::opt(
                files[k].1,
            ) == Some(token)
        },
        snapshot_from(files, token, i) is None <==> forall|k: int|
            i <= k < files.len() && text::has_prefix((#[trigger] files[k]).0@, "credential-"@)
                ==> text::opt(files[k].1) != Some(token),
    decreases files.len() - i,
{
    if i < files.len() {
        stored_tokens_are_found(files, token, i + 1);
    }
}

/// The credentials that are remembered are the new ones after a success, and the old ones otherwise.
pub proof fn credentials_change_with_success(
    old_ones: Option<String>,
    new_ones: Option<String>,
    action: ApplyAction,
    r: Option<String>,
)
    requires
        call_ensures(remembered_credentials, (old_ones, new_ones, action), r),
    ensures
        action == ApplyAction::Finish(true) ==> r == new_ones,
        action != ApplyAction::Finish(true) ==> r == old_ones,
{
}

} // verus!
