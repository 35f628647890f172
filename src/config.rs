use vstd::prelude::*;

verus! {

/// How events of a game reach the store: all at once when the round ends, or
/// one by one as they occur.
#[derive(Debug, Clone, Copy, PartialEq, Eq, Structural)]
pub enum DatabaseWriterType {
    Bulk,
    Streaming,
}

/// Where game records are kept and how they are written.
#[derive(Debug)]
pub struct DatabaseConfig {
    pub url: String,
    pub pool_size: usize,
    pub writer_type: DatabaseWriterType,
}

/// The store used when no location is given.
pub const DEFAULT_DATABASE_URL: &'static str = "sqlite::memory:";

/// Connections kept open to the store.
pub const DEFAULT_POOL_SIZE: usize = 20;

/// Handle of a recorded game, as the store numbers it.
#[derive(Debug, Clone, Copy, PartialEq, Eq, Hash, Structural)]
pub struct GameHandle(pub i64);

impl View for GameHandle {
    type V = i64;

    /// The number the store gave the game.
    open spec fn view(&self) -> i64 {
        self.0
    }
}

impl GameHandle {
    pub fn new(id: i64) -> (r: GameHandle)
        ensures
            r == GameHandle(id),
    {
        GameHandle(id)
    }

    pub fn as_i64(self) -> (r: i64)
        ensures
            r == self@,
    {
        self.0
    }
}

impl DatabaseWriterType {
    /// The writer used when none is chosen.
    pub fn default_type() -> (r: DatabaseWriterType)
        ensures
            r == DatabaseWriterType::Bulk,
    {
        DatabaseWriterType::Bulk
    }

    /// The writer's name, as configuration files spell it.
    pub fn name(&self) -> (r: &'static str)
        ensures
            r@ == (match self {
                DatabaseWriterType::Bulk => "bulk"@,
                DatabaseWriterType::Streaming => "streaming"@,
            }),
    {
        proof {
            reveal_strlit("bulk");
            reveal_strlit("streaming");
        }
        match self {
            DatabaseWriterType::Bulk => "bulk",
            DatabaseWriterType::Streaming => "streaming",
        }
    }
}

impl DatabaseConfig {
    /// The store location from the first source that gives one: the command
    /// line, then the environment, then the configuration file; else an
    /// in-memory store.
    pub fn from_cli_or_env_or_yaml(
        cli_arg: Option<String>,
        env_url: Option<String>,
        yaml_config: Option<String>,
    ) -> (r: DatabaseConfig)
        ensures
            r.url@ == (match (cli_arg, env_url, yaml_config) {
                (Some(a), _, _) => a@,
                (None, Some(e), _) => e@,
                (None, None, Some(y)) => y@,
                (None, None, None) => DEFAULT_DATABASE_URL@,
            }),
            r.pool_size == DEFAULT_POOL_SIZE,
            r.writer_type == DatabaseWriterType::Bulk,
    {
        let url = match cli_arg {
            Some(a) => a,
            None => match env_url {
                Some(e) => e,
                None => match yaml_config {
                    Some(y) => y,
                    None => DEFAULT_DATABASE_URL.to_owned(),
                },
            },
        };
        DatabaseConfig {
            url,
            pool_size: DEFAULT_POOL_SIZE,
            writer_type: DatabaseWriterType::default_type(),
        }
    }
}

} // verus!
