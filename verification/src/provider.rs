//! The provider that a configuration names.

use vstd::prelude::*;

use crate::config::{entry, parse_toml, toml_reading, Toml, TomlView};
use crate::error::{AppError, ErrorView};
use crate::text::{join2, join5, opt_text, trim, trimmed};

verus! {

/// What reading a configuration file gave.
pub enum ConfigFile {
    /// There is none.
    Missing,
    /// Its metadata could not be read, for this reason.
    MetadataFailed(String),
    /// There is something else in its place.
    NotFile,
    /// It could not be read, for this reason.
    ReadFailed(String),
    /// It holds this text.
    Text(String),
}

/// What a [`ConfigFile`] holds.
#[verifier::ext_equal]
pub enum ConfigFileView {
    Missing,
    MetadataFailed(Seq<char>),
    NotFile,
    ReadFailed(Seq<char>),
    Text(Seq<char>),
}

impl View for ConfigFile {
    type V = ConfigFileView;

    open spec fn view(&self) -> ConfigFileView {
        match *self {
            ConfigFile::Missing => ConfigFileView::Missing,
            ConfigFile::MetadataFailed(error) => ConfigFileView::MetadataFailed(error@),
            ConfigFile::NotFile => ConfigFileView::NotFile,
            ConfigFile::ReadFailed(error) => ConfigFileView::ReadFailed(error@),
            ConfigFile::Text(text) => ConfigFileView::Text(text@),
        }
    }
}

/// The provider that a document names; `None` where it names none.
pub open spec fn named_provider(document: TomlView, path: Seq<char>) -> Result<
    Option<Seq<char>>,
    ErrorView,
> {
    match entry(document, "model_provider"@) {
        None => Ok(None),
        Some(TomlView::Text(provider)) => if trimmed(provider).len() == 0 {
            Err(
                ErrorView::Other("Codex config.toml 的 model_provider 不能为空: "@ + path),
            )
        } else {
            Ok(Some(trimmed(provider)))
        },
        Some(_) => Err(
            ErrorView::Other("Codex config.toml 的 model_provider 必须是非空字符串: "@ + path),
        ),
    }
}

/// The provider that a configuration file names, and whether the file is there. A file
/// that cannot be read, or that does not say it properly, is an error.
pub open spec fn explicit_provider(file: ConfigFileView, path: Seq<char>) -> Result<
    (Option<Seq<char>>, bool),
    ErrorView,
> {
    match file {
        ConfigFileView::Missing => Ok((None, false)),
        ConfigFileView::MetadataFailed(error) => Err(
            ErrorView::Other("读取 Codex provider 配置元数据失败: "@ + path + " ("@ + error + ")"@),
        ),
        ConfigFileView::NotFile => Err(
            ErrorView::Other("Codex provider 配置路径不是文件: "@ + path),
        ),
        ConfigFileView::ReadFailed(error) => Err(
            ErrorView::Other("读取 Codex provider 配置失败: "@ + path + " ("@ + error + ")"@),
        ),
        ConfigFileView::Text(text) => match toml_reading(text) {
            Err(error) => Err(
                ErrorView::Other("Codex config.toml 不是有效 TOML: "@ + path + " ("@ + error + ")"@),
            ),
            Ok(table) => match named_provider(TomlView::Table(table), path) {
                Ok(provider) => Ok((provider, true)),
                Err(error) => Err(error),
            },
        },
    }
}

/// What the outcome of looking for a provider holds.
pub open spec fn provider_outcome(outcome: Result<Option<String>, AppError>) -> Result<
    Option<Seq<char>>,
    ErrorView,
> {
    match outcome {
        Ok(provider) => Ok(opt_text(provider)),
        Err(error) => Err(error@),
    }
}

/// The provider that a document names.
pub fn provider_in_document(document: &Toml, path: &str) -> (provider: Result<
    Option<String>,
    AppError,
>)
    ensures
        provider_outcome(provider) == named_provider(document.model(), path@),
{
    match document.get("model_provider") {
        None => Ok(None),
        Some(Toml::Text(provider)) => {
            let provider = trim(provider.as_str());
            if provider.as_str().is_empty() {
                Err(
                    AppError::Other(
                        join2("Codex config.toml 的 model_provider 不能为空: ", path),
                    ),
                )
            } else {
                Ok(Some(provider))
            }
        },
        Some(_) => Err(
            AppError::Other(
                join2("Codex config.toml 的 model_provider 必须是非空字符串: ", path),
            ),
        ),
    }
}

/// The provider that a configuration file names, and whether the file is there.
pub fn read_explicit_provider(file: &ConfigFile, path: &str) -> (outcome: Result<
    (Option<String>, bool),
    AppError,
>)
    ensures
        match outcome {
            Ok((provider, exists_)) => explicit_provider(file@, path@) == Ok::<
                (Option<Seq<char>>, bool),
                ErrorView,
            >((opt_text(provider), exists_)),
            Err(error) => explicit_provider(file@, path@) == Err::<
                (Option<Seq<char>>, bool),
                ErrorView,
            >(error@),
        },
{
    match file {
        ConfigFile::Missing => Ok((None, false)),
        ConfigFile::MetadataFailed(error) => Err(
            AppError::Other(
                join5("读取 Codex provider 配置元数据失败: ", path, " (", error.as_str(), ")"),
            ),
        ),
        ConfigFile::NotFile => Err(
            AppError::Other(join2("Codex provider 配置路径不是文件: ", path)),
        ),
        ConfigFile::ReadFailed(error) => Err(
            AppError::Other(join5("读取 Codex provider 配置失败: ", path, " (", error.as_str(), ")")),
        ),
        ConfigFile::Text(text) => match parse_toml(text.as_str()) {
            Err(error) => Err(
                AppError::Other(
                    join5("Codex config.toml 不是有效 TOML: ", path, " (", error.as_str(), ")"),
                ),
            ),
            Ok(document) => match provider_in_document(&document, path) {
                Ok(provider) => Ok((provider, true)),
                Err(error) => Err(error),
            },
        },
    }
}

/// The provider in effect: the named one, or the default where none is named.
pub open spec fn effective_provider(named: Option<Seq<char>>) -> Seq<char> {
    match named {
        Some(provider) => provider,
        None => "openai"@,
    }
}

/// The provider in effect.
pub fn effective_current_provider(file: &ConfigFile, path: &str) -> (provider: Result<
    String,
    AppError,
>)
    ensures
        crate::error::text_outcome(provider) == match explicit_provider(file@, path@) {
            Ok((named, _)) => Ok::<Seq<char>, ErrorView>(effective_provider(named)),
            Err(error) => Err(error),
        },
{
    match read_explicit_provider(file, path) {
        Ok((Some(provider), _)) => Ok(provider),
        Ok((None, _)) => Ok("openai".to_owned()),
        Err(error) => Err(error),
    }
}

/// The provider in effect, and where it comes from.
pub struct ProviderInfo {
    pub current: Option<String>,
    pub is_explicit: bool,
    pub config_path: String,
    pub exists: bool,
}

/// Tells which provider is in effect.
pub fn get_provider_info(file: &ConfigFile, path: &str) -> (info: Result<ProviderInfo, AppError>)
    ensures
        match info {
            Ok(info) => explicit_provider(file@, path@) matches Ok((named, there)) && opt_text(
                info.current,
            ) == Some(effective_provider(named)) && info.is_explicit == (named is Some)
                && info.config_path@ == path@ && info.exists == there,
            Err(error) => explicit_provider(file@, path@) == Err::<
                (Option<Seq<char>>, bool),
                ErrorView,
            >(error@),
        },
{
    match read_explicit_provider(file, path) {
        Ok((explicit, there)) => {
            let is_explicit = explicit.is_some();
            let current = match explicit {
                Some(provider) => Some(provider),
                None => Some("openai".to_owned()),
            };
            Ok(
                ProviderInfo {
                    current,
                    is_explicit,
                    config_path: path.to_owned(),
                    exists: there,
                },
            )
        },
        Err(error) => Err(error),
    }
}

/// The default provider is in effect only where the file is missing or names none; a file
/// that is damaged is an error.
pub proof fn law_default_only_where_none_is_named(file: ConfigFileView, path: Seq<char>)
    ensures
        match explicit_provider(file, path) {
            Ok((None, there)) => if there {
                file matches ConfigFileView::Text(text) && (toml_reading(text) matches Ok(table)
                    && !table.contains_key("model_provider"@))
            } else {
                file is Missing
            },
            Ok((Some(provider), there)) => there && provider.len() > 0,
            Err(_) => true,
        },
{
}

/// A configuration that names a provider names the one in use, without space around it; a blank name
/// or anything but a text is refused.
pub proof fn law_which_provider_is_named(document: TomlView, path: Seq<char>)
    ensures
        entry(document, "model_provider"@) is None <==> named_provider(document, path) == Ok::<
            Option<Seq<char>>,
            ErrorView,
        >(None),
        entry(document, "model_provider"@) matches Some(value) ==> match value {
            TomlView::Text(text) => if trimmed(text).len() > 0 {
                named_provider(document, path) == Ok::<Option<Seq<char>>, ErrorView>(
                    Some(trimmed(text)),
                )
            } else {
                named_provider(document, path) is Err
            },
            _ => named_provider(document, path) is Err,
        },
{
}

/// The provider in use is the one that is named, or the usual one where none is; a configuration that
/// cannot be read gives no answer at all.
pub proof fn law_when_there_is_no_answer(file: ConfigFileView, path: Seq<char>)
    ensures
        effective_provider(None) == "openai"@,
        forall|named: Seq<char>| #[trigger] effective_provider(Some(named)) == named,
        file is MetadataFailed || file is NotFile || file is ReadFailed ==> explicit_provider(
            file,
            path,
        ) is Err,
        file is Missing ==> explicit_provider(file, path) is Ok,
        file matches ConfigFileView::Text(text) ==> (toml_reading(text) is Err
            ==> explicit_provider(file, path) is Err),
{
}

} // verus!
