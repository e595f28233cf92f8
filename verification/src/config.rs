use alloy::transports::http::reqwest::Url;
use vstd::prelude::*;

verus! {

#[verifier::external_type_specification]
#[verifier::external_body]
pub struct ExUrl(Url);

/// What `url::Url::parse` (through `str::parse`) gives for `text`: the parsed URL,
/// or `None` when the text is not a valid URL.
pub uninterp spec fn parsed_url(text: Seq<char>) -> Option<Url>;

/// Calls `str::parse::<Url>` (the `FromStr` impl of `url::Url`, which is
/// `Url::parse`). The result is a function of the text alone, named `parsed_url`;
/// what a parsed URL holds is not stated.
#[verifier::external_body]
fn parse_url(text: &str) -> (url: Option<Url>)
    ensures
        url == parsed_url(text@),
{
    text.parse::<Url>().ok()
}

/// Calls `Clone::clone` on a `url::Url`, whose derived clone copies every field.
#[verifier::external_body]
fn clone_url(url: &Url) -> (copy: Url)
    ensures
        copy == *url,
{
    url.clone()
}

/// Whether `text` is a valid URL.
pub fn is_valid_rpc_url(text: &str) -> (valid: bool)
    ensures
        valid == parsed_url(text@) is Some,
{
    parse_url(text).is_some()
}

/// Why no configuration could be made.
pub enum ConfigError {
    /// `RPC_URL` is not set.
    MissingRpcUrl,
    /// `DEPLOYER_PRIVATE_KEY` is not set.
    MissingDeployerPrivateKey,
    /// `RPC_URL` is not a valid URL.
    InvalidRpcUrl,
}

/// The endpoint to deploy through and the key to deploy with.
pub struct Config {
    rpc_url: Url,
    deployer_private_key: String,
}

impl Config {
    /// The endpoint.
    pub closed spec fn endpoint(&self) -> Url {
        self.rpc_url
    }

    /// The deployer's private key, as text.
    pub closed spec fn private_key(&self) -> Seq<char> {
        self.deployer_private_key@
    }

    /// The configuration from the values of the environment variables `RPC_URL`
    /// and `DEPLOYER_PRIVATE_KEY`; `RPC_URL` must be a valid URL
    /// (`is_valid_rpc_url` tells), which becomes the endpoint.
    pub fn from_env(rpc_url: String, deployer_private_key: String) -> (config: Config)
        requires
            parsed_url(rpc_url@) is Some,
        ensures
            config.endpoint() == parsed_url(rpc_url@)->0,
            config.private_key() == deployer_private_key@,
    {
        let url = parse_url(rpc_url.as_str()).unwrap();
        Config { rpc_url: url, deployer_private_key }
    }

    /// The configuration from the environment variables' values (`None` where a
    /// variable is unset or unreadable), or why there is none: `RPC_URL` is checked
    /// first, then `DEPLOYER_PRIVATE_KEY`, then whether `RPC_URL` is a valid URL.
    pub fn try_from_env(rpc_url: Option<String>, deployer_private_key: Option<String>) -> (config: Result<
        Config,
        ConfigError,
    >)
        ensures
            rpc_url is None ==> config matches Err(ConfigError::MissingRpcUrl),
            rpc_url is Some && deployer_private_key is None ==> config matches Err(
                ConfigError::MissingDeployerPrivateKey,
            ),
            match (rpc_url, deployer_private_key) {
                (Some(url), Some(key)) => match parsed_url(url@) {
                    Some(endpoint) => config matches Ok(c) && c.endpoint() == endpoint && c.private_key() == key@,
                    None => config matches Err(ConfigError::InvalidRpcUrl),
                },
                _ => true,
            },
    {
        let rpc_url = match rpc_url {
            Some(url) => url,
            None => {
                return Err(ConfigError::MissingRpcUrl);
            },
        };
        let deployer_private_key = match deployer_private_key {
            Some(key) => key,
            None => {
                return Err(ConfigError::MissingDeployerPrivateKey);
            },
        };
        if is_valid_rpc_url(rpc_url.as_str()) {
            Ok(Config::from_env(rpc_url, deployer_private_key))
        } else {
            Err(ConfigError::InvalidRpcUrl)
        }
    }

    /// The endpoint to deploy through.
    pub fn rpc_url(&self) -> (url: Url)
        ensures
            url == self.endpoint(),
    {
        clone_url(&self.rpc_url)
    }

    /// The deployer's private key.
    pub fn deployer_private_key(&self) -> (key: &str)
        ensures
            key@ == self.private_key(),
    {
        self.deployer_private_key.as_str()
    }
}

} // verus!
