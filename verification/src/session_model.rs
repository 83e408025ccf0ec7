//! Which model each session runs, so that tools can ask by session alone.

use crate::text;
use crate::text::{clone_opt, owned, owned_opt};
use crate::text_map::TextMap;
use vstd::prelude::*;

verus! {

/// The model that a session runs.
#[derive(Debug, Clone, PartialEq, Eq)]
pub struct SessionModel {
    /// The provider's key, by which its profile is found.
    pub provider_key: Option<String>,
    /// The model as its provider names it.
    pub model: String,
}

/// What a [`SessionModel`] stands for.
#[verifier::ext_equal]
pub struct ModelView {
    pub provider_key: Option<Seq<char>>,
    pub model: Seq<char>,
}

impl View for SessionModel {
    type V = ModelView;

    open spec fn view(&self) -> ModelView {
        ModelView { provider_key: text::opt_text(self.provider_key), model: self.model@ }
    }
}

/// The models of all sessions, as last recorded.
#[derive(Debug)]
pub struct SessionModels {
    models: TextMap<SessionModel>,
}

impl View for SessionModels {
    type V = Map<Seq<char>, ModelView>;

    closed spec fn view(&self) -> Map<Seq<char>, ModelView> {
        self.models@.map_values(|m: SessionModel| m@)
    }
}

impl SessionModels {
    /// No session yet.
    pub fn new() -> (r: Self)
        ensures
            r@ == Map::<Seq<char>, ModelView>::empty(),
    {
        let r = SessionModels { models: TextMap::new() };
        assert(r@ =~= Map::<Seq<char>, ModelView>::empty());
        r
    }
}

/// Records the model of a session.
pub fn record_session_model(
    models: &mut SessionModels,
    session_id: &str,
    provider_key: Option<&str>,
    model: &str,
)
    ensures
        final(models)@ == old(models)@.insert(
            session_id@,
            (ModelView { provider_key: text::opt_str(provider_key), model: model@ }),
        ),
{
    let ghost before = models@;
    let entry = SessionModel { provider_key: owned_opt(provider_key), model: owned(model) };
    let _ = models.models.insert(session_id, entry);
    assert(models@ =~= before.insert(
        session_id@,
        ModelView { provider_key: text::opt_str(provider_key), model: model@ },
    ));
}

/// The model of a session, as last recorded.
pub fn session_model(models: &SessionModels, session_id: &str) -> (r: Option<SessionModel>)
    ensures
        match r {
            Some(m) => models@.dom().contains(session_id@) && models@[session_id@] == m@,
            None => !models@.dom().contains(session_id@),
        },
{
    match models.models.get(session_id) {
        Some(m) => {
            let copy = SessionModel {
                provider_key: clone_opt(&m.provider_key),
                model: owned(m.model.as_str()),
            };
            assert(copy@ =~= m@);
            Some(copy)
        },
        None => None,
    }
}

/// Forgets a session.
pub fn forget_session_model(models: &mut SessionModels, session_id: &str)
    ensures
        final(models)@ == old(models)@.remove(session_id@),
{
    let ghost before = models@;
    let _ = models.models.remove(session_id);
    assert(models@ =~= before.remove(session_id@));
}

/// What was last recorded of a session is what is read; forgetting it leaves
/// nothing to read; and neither touches another session.
pub proof fn law_sessions_are_independent(
    models: Map<Seq<char>, ModelView>,
    session: Seq<char>,
    other: Seq<char>,
    model: ModelView,
)
    ensures
        models.insert(session, model)[session] == model,
        models.insert(session, model).dom().contains(session),
        !models.remove(session).dom().contains(session),
        other != session ==> {
            &&& models.insert(session, model).dom().contains(other) == models.dom().contains(other)
            &&& models.remove(session).dom().contains(other) == models.dom().contains(other)
            &&& models.dom().contains(other) ==> models.insert(session, model)[other]
                == models[other] && models.remove(session)[other] == models[other]
        },
{
}

} // verus!
