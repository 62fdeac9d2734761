//! Service selection: which generation service is configured and which
//! model identifier is sent with a request.

use vstd::prelude::*;

verus! {

/// The generation service a deployment talks to.
#[derive(Debug, Clone, Copy, PartialEq, Eq, Structural)]
pub enum GPTService {
    AzureOpenAI,
    OpenAI,
}

/// The models the OpenAI service accepts.
#[derive(Debug, Clone, Copy, PartialEq, Eq, Structural)]
pub enum OpenAIModel {
    GPT35,
    GPT35_16k,
    GPT4,
    GPT4_32k,
}

/// The wire identifier of a model.
pub open spec fn model_str_spec(m: OpenAIModel) -> Seq<char> {
    match m {
        OpenAIModel::GPT35 => "gpt-3.5-turbo"@,
        OpenAIModel::GPT35_16k => "gpt-3.5-turbo-16k"@,
        OpenAIModel::GPT4 => "gpt-4"@,
        OpenAIModel::GPT4_32k => "gpt-4-32k"@,
    }
}

impl OpenAIModel {
    /// Every model, in a fixed order.
    pub fn all_models() -> (r: Vec<OpenAIModel>)
        ensures
            r@ == seq![
                OpenAIModel::GPT35,
                OpenAIModel::GPT35_16k,
                OpenAIModel::GPT4,
                OpenAIModel::GPT4_32k,
            ],
    {
        let mut v: Vec<OpenAIModel> = Vec::new();
        v.push(OpenAIModel::GPT35);
        v.push(OpenAIModel::GPT35_16k);
        v.push(OpenAIModel::GPT4);
        v.push(OpenAIModel::GPT4_32k);
        proof {
            assert(v@ =~= seq![
                OpenAIModel::GPT35,
                OpenAIModel::GPT35_16k,
                OpenAIModel::GPT4,
                OpenAIModel::GPT4_32k,
            ]);
        }
        v
    }

    /// The 3.5 family.
    pub fn gpt35_models() -> (r: Vec<OpenAIModel>)
        ensures
            r@ == seq![OpenAIModel::GPT35, OpenAIModel::GPT35_16k],
    {
        let mut v: Vec<OpenAIModel> = Vec::new();
        v.push(OpenAIModel::GPT35);
        v.push(OpenAIModel::GPT35_16k);
        proof {
            assert(v@ =~= seq![OpenAIModel::GPT35, OpenAIModel::GPT35_16k]);
        }
        v
    }

    /// The 4 family.
    pub fn gpt4_models() -> (r: Vec<OpenAIModel>)
        ensures
            r@ == seq![OpenAIModel::GPT4, OpenAIModel::GPT4_32k],
    {
        let mut v: Vec<OpenAIModel> = Vec::new();
        v.push(OpenAIModel::GPT4);
        v.push(OpenAIModel::GPT4_32k);
        proof {
            assert(v@ =~= seq![OpenAIModel::GPT4, OpenAIModel::GPT4_32k]);
        }
        v
    }

    /// The identifier sent to the service for this model.
    pub fn model_str(&self) -> (r: &'static str)
        ensures
            r@ == model_str_spec(*self),
    {
        match self {
            OpenAIModel::GPT35 => "gpt-3.5-turbo",
            OpenAIModel::GPT35_16k => "gpt-3.5-turbo-16k",
            OpenAIModel::GPT4 => "gpt-4",
            OpenAIModel::GPT4_32k => "gpt-4-32k",
        }
    }
}

} // verus!
