//! Credentials for the external generation service.  The dispatcher treats
//! their absence as a precondition failure that aborts a turn before any
//! mutation.

use vstd::prelude::*;

verus! {

/// Mathematical model of an [`Auth`] value.
pub ghost enum AuthView {
    OpenAI { api_key: Seq<char>, org_id: Option<Seq<char>>, api_base: Option<Seq<char>> },
    AzureOpenAI {
        api_version: Seq<char>,
        deployment_id: Seq<char>,
        api_base: Seq<char>,
        api_key: Seq<char>,
    },
}

/// Connection parameters of one of the supported generation services.
#[non_exhaustive]
#[derive(Debug)]
pub enum Auth {
    OpenAI { api_key: String, org_id: Option<String>, api_base: Option<String> },
    AzureOpenAI { api_version: String, deployment_id: String, api_base: String, api_key: String },
}

/// The model of an optional text field.
pub open spec fn opt_text_view(o: Option<String>) -> Option<Seq<char>> {
    match o {
        Some(s) => Some(s@),
        None => None,
    }
}

impl View for Auth {
    type V = AuthView;

    open spec fn view(&self) -> AuthView {
        match self {
            Auth::OpenAI { api_key, org_id, api_base } => AuthView::OpenAI {
                api_key: api_key@,
                org_id: opt_text_view(*org_id),
                api_base: opt_text_view(*api_base),
            },
            Auth::AzureOpenAI { api_version, deployment_id, api_base, api_key } => (
            AuthView::AzureOpenAI {
                api_version: api_version@,
                deployment_id: deployment_id@,
                api_base: api_base@,
                api_key: api_key@,
            }),
        }
    }
}

impl Clone for Auth {
    fn clone(&self) -> (r: Self)
        ensures
            r@ == self@,
    {
        match self {
            Auth::OpenAI { api_key, org_id, api_base } => Auth::OpenAI {
                api_key: api_key.clone(),
                org_id: match org_id {
                    Some(s) => Some(s.clone()),
                    None => None,
                },
                api_base: match api_base {
                    Some(s) => Some(s.clone()),
                    None => None,
                },
            },
            Auth::AzureOpenAI { api_version, deployment_id, api_base, api_key } => (
            Auth::AzureOpenAI {
                api_version: api_version.clone(),
                deployment_id: deployment_id.clone(),
                api_base: api_base.clone(),
                api_key: api_key.clone(),
            }),
        }
    }
}

} // verus!
