//! The run configuration and how it is resolved from command-line values.
//!
//! Reading the command line and the configuration file is the caller's
//! business. What it found is handed over as an [`Arguments`] value, and
//! [`Config::try_parse`] decides what run, if any, it describes.

use crate::number::{parse_u32, parsed_u32};
use vstd::prelude::*;
use vstd::string::*;

verus! {

/// What one run needs to know: the target, how many workers to start, and
/// the optional cap on requests in flight.
#[derive(Debug)]
pub struct Config {
    pub num_threads: u32,
    pub url: String,
    pub max_concurrent_requests: Option<u32>,
}

/// A configuration as plain values.
pub struct ConfigView {
    pub num_threads: u32,
    pub url: Seq<char>,
    pub max_concurrent_requests: Option<u32>,
}

impl View for Config {
    type V = ConfigView;

    open spec fn view(&self) -> ConfigView {
        ConfigView {
            num_threads: self.num_threads,
            url: self.url@,
            max_concurrent_requests: self.max_concurrent_requests,
        }
    }
}

/// What became of loading the configuration file named on the command line.
#[derive(Debug)]
pub enum ConfigFile {
    /// The file could not be opened; the text says why.
    Unreadable(String),
    /// The file does not hold a configuration in JSON; the text says why.
    Malformed(String),
    /// The configuration that the file holds.
    Loaded(Config),
}

/// What the command line held: the text of each option as it was written
/// and, where a configuration file was named, what became of loading it.
#[derive(Debug)]
pub struct Arguments {
    pub config: Option<ConfigFile>,
    pub url: Option<String>,
    pub threads: Option<String>,
    pub max_concurrent_requests: Option<String>,
}

/// The complaint about a thread count that is not a positive number.
pub open spec fn threads_not_positive() -> Seq<char> {
    "`threads` should be a positive integer"@
}

/// The complaint about a cap of zero, under which no request could ever start.
pub open spec fn limit_not_positive() -> Seq<char> {
    "`max_concurrent_requests` should be a positive integer"@
}

/// The complaint about a missing target.
pub open spec fn missing_url() -> Seq<char> {
    "Missing required argument `url`"@
}

/// The complaint about a missing thread count.
pub open spec fn missing_threads() -> Seq<char> {
    "Missing required argument `threads`"@
}

/// The complaint about a command line that names neither.
pub open spec fn missing_url_and_threads() -> Seq<char> {
    "Missing required arguments `url` and `threads`"@
}

/// The complaint about a configuration file that could not be opened.
pub open spec fn unreadable_file(why: Seq<char>) -> Seq<char> {
    "Unable to open file: "@ + why
}

/// The complaint about a configuration file that is not valid JSON.
pub open spec fn malformed_file(why: Seq<char>) -> Seq<char> {
    "Invalid json in configuration file "@ + why
}

/// A configuration is accepted if it asks for at least one worker and its
/// cap, if any, is at least one. The thread count is looked at first.
pub open spec fn checked(config: ConfigView) -> Result<ConfigView, Seq<char>> {
    if config.num_threads == 0 {
        Err(threads_not_positive())
    } else if config.max_concurrent_requests == Some(0u32) {
        Err(limit_not_positive())
    } else {
        Ok(config)
    }
}

/// What a configuration file comes to.
pub open spec fn from_file(file: ConfigFile) -> Result<ConfigView, Seq<char>> {
    match file {
        ConfigFile::Unreadable(why) => Err(unreadable_file(why@)),
        ConfigFile::Malformed(why) => Err(malformed_file(why@)),
        ConfigFile::Loaded(config) => checked(config@),
    }
}

/// The cap that the text of the option stands for. An option that is left
/// out, or whose text is no number, sets no cap.
pub open spec fn limit_of(text: Option<Seq<char>>) -> Option<u32> {
    match text {
        Some(text) => parsed_u32(text),
        None => None,
    }
}

/// What the single options come to. Both the target and the thread count
/// are required, and the thread count has to be a positive number.
pub open spec fn from_options(
    url: Option<Seq<char>>,
    threads: Option<Seq<char>>,
    limit: Option<Seq<char>>,
) -> Result<ConfigView, Seq<char>> {
    match (url, threads) {
        (Some(url), Some(threads)) => match parsed_u32(threads) {
            Some(num_threads) => checked(
                ConfigView { num_threads, url, max_concurrent_requests: limit_of(limit) },
            ),
            None => Err(threads_not_positive()),
        },
        (None, Some(_)) => Err(missing_url()),
        (Some(_), None) => Err(missing_threads()),
        (None, None) => Err(missing_url_and_threads()),
    }
}

/// The view of an optional text.
pub open spec fn text_of(text: Option<String>) -> Option<Seq<char>> {
    match text {
        Some(text) => Some(text@),
        None => None,
    }
}

/// What the command line comes to. A configuration file, where one was
/// named, decides alone; the other options are then not looked at.
pub open spec fn resolved(args: Arguments) -> Result<ConfigView, Seq<char>> {
    match args.config {
        Some(file) => from_file(file),
        None => from_options(
            text_of(args.url),
            text_of(args.threads),
            text_of(args.max_concurrent_requests),
        ),
    }
}

/// The result of resolving a configuration, as plain values.
pub open spec fn outcome_view(outcome: Result<Config, String>) -> Result<ConfigView, Seq<char>> {
    match outcome {
        Ok(config) => Ok(config@),
        Err(complaint) => Err(complaint@),
    }
}

impl Config {
    /// A run can only start from a configuration with at least one worker
    /// and, where a cap is set, room for at least one request.
    pub open spec fn is_valid(&self) -> bool {
        &&& self.num_threads >= 1
        &&& (self.max_concurrent_requests matches Some(limit) ==> limit >= 1)
    }

    /// Stores the three values as given; nothing is checked here.
    pub fn new(
        url: &str,
        num_threads: u32,
        max_concurrent_requests: Option<u32>,
    ) -> (config: Config)
        ensures
            config.url@ == url@,
            config.num_threads == num_threads,
            config.max_concurrent_requests == max_concurrent_requests,
    {
        Config { url: url.to_owned(), num_threads, max_concurrent_requests }
    }

    /// Hands the configuration back if a run can start from it, and says
    /// what is wrong with it otherwise.
    pub fn validate(self) -> (outcome: Result<Config, String>)
        ensures
            outcome_view(outcome) == checked(self@),
            outcome is Ok <==> self.is_valid(),
            outcome matches Ok(config) ==> config == self,
    {
        if self.num_threads == 0 {
            Err(String::from_str("`threads` should be a positive integer"))
        } else {
            match self.max_concurrent_requests {
                Some(0) => Err(
                    String::from_str("`max_concurrent_requests` should be a positive integer"),
                ),
                _ => Ok(self),
            }
        }
    }

    /// Resolves the command line into the configuration of a run.
    ///
    /// A configuration file, where one was named, decides alone. Otherwise
    /// the target and the thread count are both required. Whatever the
    /// source, the result is a valid configuration or a complaint.
    pub fn try_parse(args: Arguments) -> (outcome: Result<Config, String>)
        ensures
            outcome_view(outcome) == resolved(args),
            outcome matches Ok(config) ==> config.is_valid(),
    {
        match args.config {
            Some(file) => Config::try_parse_file(file),
            None => Config::try_parse_args(args.url, args.threads, args.max_concurrent_requests),
        }
    }

    /// Resolves what was found in a configuration file.
    pub fn try_parse_file(file: ConfigFile) -> (outcome: Result<Config, String>)
        ensures
            outcome_view(outcome) == from_file(file),
            outcome matches Ok(config) ==> config.is_valid(),
    {
        match file {
            ConfigFile::Unreadable(why) => Err(
                String::from_str("Unable to open file: ").concat(why.as_str()),
            ),
            ConfigFile::Malformed(why) => Err(
                String::from_str("Invalid json in configuration file ").concat(why.as_str()),
            ),
            ConfigFile::Loaded(config) => config.validate(),
        }
    }

    /// Resolves the single options of the command line.
    pub fn try_parse_args(
        url: Option<String>,
        threads: Option<String>,
        max_concurrent_requests: Option<String>,
    ) -> (outcome: Result<Config, String>)
        ensures
            outcome_view(outcome) == from_options(
                text_of(url),
                text_of(threads),
                text_of(max_concurrent_requests),
            ),
            outcome matches Ok(config) ==> config.is_valid(),
    {
        match (url, threads) {
            (Some(url), Some(threads)) => match parse_u32(threads.as_str()) {
                Some(num_threads) => {
                    let limit: Option<u32> = match max_concurrent_requests {
                        Some(text) => parse_u32(text.as_str()),
                        None => None,
                    };
                    Config::new(url.as_str(), num_threads, limit).validate()
                },
                None => Err(String::from_str("`threads` should be a positive integer")),
            },
            (None, Some(_)) => Err(String::from_str("Missing required argument `url`")),
            (Some(_), None) => Err(String::from_str("Missing required argument `threads`")),
            (None, None) => Err(
                String::from_str("Missing required arguments `url` and `threads`"),
            ),
        }
    }
}

} // verus!
