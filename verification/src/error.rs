//! The errors that the library reports, in two languages.
use vstd::prelude::*;
use vstd::string::*;

verus! {

/// Why a request was refused.
#[derive(Debug)]
pub enum AppError {
    /// A configuration text is no TOML.
    ConfigTomlInvalid { detail: String },
    /// The text of a profile is no TOML.
    ProfileTomlInvalid { detail: String },
    /// The configuration that is to be changed is no TOML.
    ExistingTomlInvalid { detail: String },
    /// The configuration in use is no TOML.
    LiveTomlInvalid { detail: String },
    /// There is no configuration in use.
    LiveMissing,
    /// The configuration in use defines no model.
    LiveModelMissing,
    /// A provider has no configuration text.
    ConfigMissing,
    /// The configuration of a provider defines no model.
    ProviderModelMissing,
    /// A profile defines no model.
    ProfileModelMissing,
    /// The official account cannot be routed through the proxy.
    OfficialProxyUnsupported,
    /// A route names no model.
    RouteModelIdEmpty { role: String },
    /// A route names a model that its own provider does not define.
    RouteLocalModelMissing { role: String, model_id: String },
    /// A route names a provider that is not there.
    RouteProviderMissing { role: String, provider_id: String },
    /// A route names the official provider as its source.
    RouteOfficialSource { role: String },
    /// A route names a model that another provider does not define.
    RouteModelMissing { provider_name: String, model_id: String },
}

/// The model of an [`AppError`].
pub enum AppErrorView {
    ConfigTomlInvalid { detail: Seq<char> },
    ProfileTomlInvalid { detail: Seq<char> },
    ExistingTomlInvalid { detail: Seq<char> },
    LiveTomlInvalid { detail: Seq<char> },
    LiveMissing,
    LiveModelMissing,
    ConfigMissing,
    ProviderModelMissing,
    ProfileModelMissing,
    OfficialProxyUnsupported,
    RouteModelIdEmpty { role: Seq<char> },
    RouteLocalModelMissing { role: Seq<char>, model_id: Seq<char> },
    RouteProviderMissing { role: Seq<char>, provider_id: Seq<char> },
    RouteOfficialSource { role: Seq<char> },
    RouteModelMissing { provider_name: Seq<char>, model_id: Seq<char> },
}

impl View for AppError {
    type V = AppErrorView;

    open spec fn view(&self) -> AppErrorView {
        match self {
            AppError::ConfigTomlInvalid { detail } => AppErrorView::ConfigTomlInvalid { detail: detail@ },
            AppError::ProfileTomlInvalid { detail } => AppErrorView::ProfileTomlInvalid { detail: detail@ },
            AppError::ExistingTomlInvalid { detail } => AppErrorView::ExistingTomlInvalid { detail: detail@ },
            AppError::LiveTomlInvalid { detail } => AppErrorView::LiveTomlInvalid { detail: detail@ },
            AppError::LiveMissing => AppErrorView::LiveMissing,
            AppError::LiveModelMissing => AppErrorView::LiveModelMissing,
            AppError::ConfigMissing => AppErrorView::ConfigMissing,
            AppError::ProviderModelMissing => AppErrorView::ProviderModelMissing,
            AppError::ProfileModelMissing => AppErrorView::ProfileModelMissing,
            AppError::OfficialProxyUnsupported => AppErrorView::OfficialProxyUnsupported,
            AppError::RouteModelIdEmpty { role } => AppErrorView::RouteModelIdEmpty { role: role@ },
            AppError::RouteLocalModelMissing { role, model_id } => AppErrorView::RouteLocalModelMissing {
                role: role@,
                model_id: model_id@,
            },
            AppError::RouteProviderMissing { role, provider_id } => AppErrorView::RouteProviderMissing {
                role: role@,
                provider_id: provider_id@,
            },
            AppError::RouteOfficialSource { role } => AppErrorView::RouteOfficialSource { role: role@ },
            AppError::RouteModelMissing { provider_name, model_id } => AppErrorView::RouteModelMissing {
                provider_name: provider_name@,
                model_id: model_id@,
            },
        }
    }
}

/// Why a change of a document came to nothing.
#[derive(Debug)]
pub enum Fault {
    /// The request was refused.
    Reported(AppError),
    /// A field was to be written under a name that holds something other than a table.
    NotATable,
}

/// The model of a [`Fault`].
pub enum FaultView {
    Reported(AppErrorView),
    NotATable,
}

impl View for Fault {
    type V = FaultView;

    open spec fn view(&self) -> FaultView {
        match self {
            Fault::Reported(error) => FaultView::Reported(error@),
            Fault::NotATable => FaultView::NotATable,
        }
    }
}

/// The model of a text or the reason why there is none.
pub open spec fn text_result(r: Result<String, AppError>) -> Result<Seq<char>, AppErrorView> {
    match r {
        Ok(text) => Ok(text@),
        Err(error) => Err(error@),
    }
}

/// The model of a text or the fault that prevented it.
pub open spec fn text_outcome(r: Result<String, Fault>) -> Result<Seq<char>, FaultView> {
    match r {
        Ok(text) => Ok(text@),
        Err(fault) => Err(fault@),
    }
}

/// The outcome once the fault is known to be a reported error.
pub open spec fn reported<T>(outcome: Result<T, FaultView>) -> Result<T, AppErrorView>
    recommends
        outcome != Err::<T, FaultView>(FaultView::NotATable),
{
    match outcome {
        Ok(value) => Ok(value),
        Err(FaultView::Reported(error)) => Err(error),
        Err(FaultView::NotATable) => arbitrary(),
    }
}

impl AppErrorView {
    /// The stable key of the error.
    pub open spec fn key(self) -> Seq<char> {
        match self {
            AppErrorView::ConfigTomlInvalid { .. } => "provider.grok.config.invalid_toml"@,
            AppErrorView::ProfileTomlInvalid { .. } => "provider.grok.config.invalid_toml"@,
            AppErrorView::ExistingTomlInvalid { .. } => "grok.live.invalid_toml"@,
            AppErrorView::LiveTomlInvalid { .. } => "grok.live.invalid_toml"@,
            AppErrorView::LiveMissing => "grok.live.missing"@,
            AppErrorView::LiveModelMissing => "grok.live.model_missing"@,
            AppErrorView::ConfigMissing => "provider.grok.config.missing"@,
            AppErrorView::ProviderModelMissing => "provider.grok.model.missing"@,
            AppErrorView::ProfileModelMissing => "provider.grok.model.missing"@,
            AppErrorView::OfficialProxyUnsupported => "provider.grok.official_proxy_unsupported"@,
            AppErrorView::RouteModelIdEmpty { .. } => "provider.grok.subagent_route.model_id_empty"@,
            AppErrorView::RouteLocalModelMissing { .. } => "provider.grok.subagent_route.local_model_missing"@,
            AppErrorView::RouteProviderMissing { .. } => "provider.grok.subagent_route.provider_missing"@,
            AppErrorView::RouteOfficialSource { .. } =>
                "provider.grok.subagent_route.official_source_unsupported"@,
            AppErrorView::RouteModelMissing { .. } => "provider.grok.subagent_route.model_missing"@,
        }
    }

    /// The message in Chinese.
    pub open spec fn zh(self) -> Seq<char> {
        match self {
            AppErrorView::ConfigTomlInvalid { detail } => "Grok config.toml 格式错误: "@ + detail,
            AppErrorView::ProfileTomlInvalid { detail } => "Grok Profile TOML 格式错误: "@ + detail,
            AppErrorView::ExistingTomlInvalid { detail } => "现有 Grok config.toml 格式错误: "@ + detail,
            AppErrorView::LiveTomlInvalid { detail } => "Grok config.toml 格式错误: "@ + detail,
            AppErrorView::LiveMissing => "Grok Build 配置文件不存在"@,
            AppErrorView::LiveModelMissing => "Grok config.toml 中未找到当前模型配置"@,
            AppErrorView::ConfigMissing => "Grok 供应商缺少 config 配置"@,
            AppErrorView::ProviderModelMissing => "Grok 供应商配置缺少 [model.ccswitch] 模型定义"@,
            AppErrorView::ProfileModelMissing => "Grok Profile 缺少 [model.*] 模型定义"@,
            AppErrorView::OfficialProxyUnsupported =>
                "Grok 官方 OAuth 账号不支持代理接管，请先切换到 API 供应商"@,
            AppErrorView::RouteModelIdEmpty { role } =>
                "Grok 子代理角色「"@ + role + "」的模型 ID 为空"@,
            AppErrorView::RouteLocalModelMissing { role, model_id } =>
                "Grok 子代理角色「"@ + role + "」引用的本供应商模型 [model."@ + model_id + "] 不存在"@,
            AppErrorView::RouteProviderMissing { role, provider_id } =>
                "Grok 子代理角色「"@ + role + "」引用的供应商「"@ + provider_id + "」不存在或已删除"@,
            AppErrorView::RouteOfficialSource { role } =>
                "Grok 子代理角色「"@ + role + "」不能路由到官方 OAuth 供应商（无独立模型定义）"@,
            AppErrorView::RouteModelMissing { provider_name, model_id } =>
                "Grok 跨供应商路由引用的模型不存在：供应商「"@ + provider_name + "」中没有 [model."@ + model_id + "]"@,
        }
    }

    /// The message in English.
    pub open spec fn en(self) -> Seq<char> {
        match self {
            AppErrorView::ConfigTomlInvalid { detail } => "Invalid Grok config.toml: "@ + detail,
            AppErrorView::ProfileTomlInvalid { detail } => "Invalid Grok Profile TOML: "@ + detail,
            AppErrorView::ExistingTomlInvalid { detail } => "Existing Grok config.toml is invalid: "@ + detail,
            AppErrorView::LiveTomlInvalid { detail } => "Invalid Grok config.toml: "@ + detail,
            AppErrorView::LiveMissing => "Grok Build configuration file is missing"@,
            AppErrorView::LiveModelMissing => "The active model is missing from Grok config.toml"@,
            AppErrorView::ConfigMissing => "Grok provider is missing config"@,
            AppErrorView::ProviderModelMissing =>
                "Grok provider config is missing the [model.ccswitch] model definition"@,
            AppErrorView::ProfileModelMissing => "Grok Profile is missing a [model.*] model definition"@,
            AppErrorView::OfficialProxyUnsupported =>
                "Grok official OAuth does not support proxy takeover; switch to an API provider first"@,
            AppErrorView::RouteModelIdEmpty { role } =>
                "Grok subagent role '"@ + role + "' has an empty model ID"@,
            AppErrorView::RouteLocalModelMissing { role, model_id } =>
                "Grok subagent role '"@ + role + "' refers to missing local model [model."@ + model_id + "]"@,
            AppErrorView::RouteProviderMissing { role, provider_id } =>
                "Grok subagent role '"@ + role + "' refers to missing provider '"@ + provider_id + "'"@,
            AppErrorView::RouteOfficialSource { role } =>
                "Grok subagent role '"@ + role
                    + "' cannot route to the official OAuth provider (no standalone model definitions)"@,
            AppErrorView::RouteModelMissing { provider_name, model_id } =>
                "Cross-provider Grok subagent route refers to missing model: provider '"@ + provider_name
                    + "' has no [model."@ + model_id + "]"@,
        }
    }

    /// Both messages.
    pub open spec fn message(self) -> Seq<char> {
        self.zh() + " ("@ + self.en() + ")"@
    }
}

/// `a` followed by `b`.
fn join2(a: &str, b: &str) -> (r: String)
    ensures
        r@ == a@ + b@,
{
    let mut s = a.to_owned();
    s.append(b);
    s
}

/// `a`, `b` and `c`, one behind the other.
fn join3(a: &str, b: &str, c: &str) -> (r: String)
    ensures
        r@ == a@ + b@ + c@,
{
    let mut s = join2(a, b);
    s.append(c);
    s
}

/// `a` to `e`, one behind the other.
fn join5(a: &str, b: &str, c: &str, d: &str, e: &str) -> (r: String)
    ensures
        r@ == a@ + b@ + c@ + d@ + e@,
{
    let mut s = join3(a, b, c);
    s.append(d);
    s.append(e);
    s
}

impl AppError {
    /// The stable key of the error.
    pub fn key(&self) -> (r: &'static str)
        ensures
            r@ == self@.key(),
    {
        match self {
            AppError::ConfigTomlInvalid { .. } => "provider.grok.config.invalid_toml",
            AppError::ProfileTomlInvalid { .. } => "provider.grok.config.invalid_toml",
            AppError::ExistingTomlInvalid { .. } => "grok.live.invalid_toml",
            AppError::LiveTomlInvalid { .. } => "grok.live.invalid_toml",
            AppError::LiveMissing => "grok.live.missing",
            AppError::LiveModelMissing => "grok.live.model_missing",
            AppError::ConfigMissing => "provider.grok.config.missing",
            AppError::ProviderModelMissing => "provider.grok.model.missing",
            AppError::ProfileModelMissing => "provider.grok.model.missing",
            AppError::OfficialProxyUnsupported => "provider.grok.official_proxy_unsupported",
            AppError::RouteModelIdEmpty { .. } => "provider.grok.subagent_route.model_id_empty",
            AppError::RouteLocalModelMissing { .. } => "provider.grok.subagent_route.local_model_missing",
            AppError::RouteProviderMissing { .. } => "provider.grok.subagent_route.provider_missing",
            AppError::RouteOfficialSource { .. } =>
                "provider.grok.subagent_route.official_source_unsupported",
            AppError::RouteModelMissing { .. } => "provider.grok.subagent_route.model_missing",
        }
    }

    /// The message in Chinese.
    pub fn zh(&self) -> (r: String)
        ensures
            r@ == self@.zh(),
    {
        match self {
            AppError::ConfigTomlInvalid { detail } => join2("Grok config.toml 格式错误: ", detail.as_str()),
            AppError::ProfileTomlInvalid { detail } => join2("Grok Profile TOML 格式错误: ", detail.as_str()),
            AppError::ExistingTomlInvalid { detail } =>
                join2("现有 Grok config.toml 格式错误: ", detail.as_str()),
            AppError::LiveTomlInvalid { detail } => join2("Grok config.toml 格式错误: ", detail.as_str()),
            AppError::LiveMissing => "Grok Build 配置文件不存在".to_owned(),
            AppError::LiveModelMissing => "Grok config.toml 中未找到当前模型配置".to_owned(),
            AppError::ConfigMissing => "Grok 供应商缺少 config 配置".to_owned(),
            AppError::ProviderModelMissing => "Grok 供应商配置缺少 [model.ccswitch] 模型定义".to_owned(),
            AppError::ProfileModelMissing => "Grok Profile 缺少 [model.*] 模型定义".to_owned(),
            AppError::OfficialProxyUnsupported =>
                "Grok 官方 OAuth 账号不支持代理接管，请先切换到 API 供应商".to_owned(),
            AppError::RouteModelIdEmpty { role } =>
                join3("Grok 子代理角色「", role.as_str(), "」的模型 ID 为空"),
            AppError::RouteLocalModelMissing { role, model_id } => join5(
                "Grok 子代理角色「",
                role.as_str(),
                "」引用的本供应商模型 [model.",
                model_id.as_str(),
                "] 不存在",
            ),
            AppError::RouteProviderMissing { role, provider_id } => join5(
                "Grok 子代理角色「",
                role.as_str(),
                "」引用的供应商「",
                provider_id.as_str(),
                "」不存在或已删除",
            ),
            AppError::RouteOfficialSource { role } => join3(
                "Grok 子代理角色「",
                role.as_str(),
                "」不能路由到官方 OAuth 供应商（无独立模型定义）",
            ),
            AppError::RouteModelMissing { provider_name, model_id } => join5(
                "Grok 跨供应商路由引用的模型不存在：供应商「",
                provider_name.as_str(),
                "」中没有 [model.",
                model_id.as_str(),
                "]",
            ),
        }
    }

    /// The message in English.
    pub fn en(&self) -> (r: String)
        ensures
            r@ == self@.en(),
    {
        match self {
            AppError::ConfigTomlInvalid { detail } => join2("Invalid Grok config.toml: ", detail.as_str()),
            AppError::ProfileTomlInvalid { detail } => join2("Invalid Grok Profile TOML: ", detail.as_str()),
            AppError::ExistingTomlInvalid { detail } =>
                join2("Existing Grok config.toml is invalid: ", detail.as_str()),
            AppError::LiveTomlInvalid { detail } => join2("Invalid Grok config.toml: ", detail.as_str()),
            AppError::LiveMissing => "Grok Build configuration file is missing".to_owned(),
            AppError::LiveModelMissing => "The active model is missing from Grok config.toml".to_owned(),
            AppError::ConfigMissing => "Grok provider is missing config".to_owned(),
            AppError::ProviderModelMissing =>
                "Grok provider config is missing the [model.ccswitch] model definition".to_owned(),
            AppError::ProfileModelMissing =>
                "Grok Profile is missing a [model.*] model definition".to_owned(),
            AppError::OfficialProxyUnsupported =>
                "Grok official OAuth does not support proxy takeover; switch to an API provider first"
                    .to_owned(),
            AppError::RouteModelIdEmpty { role } =>
                join3("Grok subagent role '", role.as_str(), "' has an empty model ID"),
            AppError::RouteLocalModelMissing { role, model_id } => join5(
                "Grok subagent role '",
                role.as_str(),
                "' refers to missing local model [model.",
                model_id.as_str(),
                "]",
            ),
            AppError::RouteProviderMissing { role, provider_id } => join5(
                "Grok subagent role '",
                role.as_str(),
                "' refers to missing provider '",
                provider_id.as_str(),
                "'",
            ),
            AppError::RouteOfficialSource { role } => join3(
                "Grok subagent role '",
                role.as_str(),
                "' cannot route to the official OAuth provider (no standalone model definitions)",
            ),
            AppError::RouteModelMissing { provider_name, model_id } => join5(
                "Cross-provider Grok subagent route refers to missing model: provider '",
                provider_name.as_str(),
                "' has no [model.",
                model_id.as_str(),
                "]",
            ),
        }
    }

    /// Both messages.
    pub fn message(&self) -> (r: String)
        ensures
            r@ == self@.message(),
    {
        let zh = self.zh();
        let en = self.en();
        let mut s = join3(zh.as_str(), " (", en.as_str());
        s.append(")");
        s
    }
}

} // verus!
