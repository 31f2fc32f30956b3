//! Reading a client command out of a decoded protocol value.
//!
//! A command arrives as an Array whose first element is a BulkString naming
//! the command, case-insensitively; the elements after it are its
//! parameters. [`Command::from_value`] recognizes the four commands and
//! hands back `None` for anything else. The case folding itself is done by
//! the standard library; its result is named [`lower_of`], and everything
//! after the fold is decided by the verified [`Command::from_folded`].

use vstd::prelude::*;

use crate::redis_value::{lemma_views_of, view_of, views_of, RedisValue, SpecValue};

verus! {

/// A recognized client command, with its decoded arguments.
#[derive(Debug, PartialEq)]
pub enum Command {
    PING,
    SET { key: RedisValue, value: RedisValue },
    GET { key: RedisValue },
    DEL { key: RedisValue },
}

/// The mathematical model of a command: the same shape over value models.
pub enum CommandModel {
    PING,
    SET { key: SpecValue, value: SpecValue },
    GET { key: SpecValue },
    DEL { key: SpecValue },
}

/// The model of an executable command.
pub open spec fn command_view(c: Command) -> CommandModel {
    match c {
        Command::PING => CommandModel::PING,
        Command::SET { key, value } => CommandModel::SET {
            key: view_of(key),
            value: view_of(value),
        },
        Command::GET { key } => CommandModel::GET { key: view_of(key) },
        Command::DEL { key } => CommandModel::DEL { key: view_of(key) },
    }
}

impl View for Command {
    type V = CommandModel;

    open spec fn view(&self) -> CommandModel {
        command_view(*self)
    }
}

/// The lowercase form of a text, as the standard library's Unicode case
/// folding produces it. The result depends on the characters alone.
pub uninterp spec fn lower_of(s: Seq<char>) -> Seq<char>;

/// Relies on `str::to_lowercase`: the Unicode lowercase form of the text,
/// a function of the characters alone.
#[verifier::external_body]
fn lowercase(s: &str) -> (r: String)
    ensures
        r@ == lower_of(s@),
{
    s.to_lowercase()
}

/// The command a folded name and a parameter list stand for, if any.
pub open spec fn spec_from_folded(name: Seq<char>, params: Seq<SpecValue>) -> Option<CommandModel> {
    if name == "ping"@ {
        Some(CommandModel::PING)
    } else if name == "set"@ {
        if params.len() >= 2 {
            Some(CommandModel::SET { key: params[0], value: params[1] })
        } else {
            None
        }
    } else if name == "get"@ {
        if params.len() >= 1 {
            Some(CommandModel::GET { key: params[0] })
        } else {
            None
        }
    } else if name == "del"@ {
        if params.len() >= 1 {
            Some(CommandModel::DEL { key: params[0] })
        } else {
            None
        }
    } else {
        None
    }
}

/// The command a decoded value stands for: an Array whose first element is
/// a BulkString whose lowercase form names a command, followed by enough
/// parameters; `None` for every other value.
pub open spec fn spec_from_value(v: SpecValue) -> Option<CommandModel> {
    match v {
        SpecValue::Array(items) => if items.len() > 0 {
            match items[0] {
                SpecValue::BulkString(cmd) => spec_from_folded(lower_of(cmd), items.drop_first()),
                _ => None,
            }
        } else {
            None
        },
        _ => None,
    }
}

impl Command {
    /// Recognizes a command from its already-folded name and its parameter
    /// list: `ping` alone, `set` with at least a key and a value, `get` and
    /// `del` with at least a key. Extra parameters are ignored, exactly as
    /// many as needed are taken.
    pub fn from_folded(name: &str, params: Vec<RedisValue>) -> (r: Option<Command>)
        ensures
            match spec_from_folded(name@, views_of(params@)) {
                Some(c) => r matches Some(rc) && rc@ == c,
                None => r is None,
            },
    {
        proof {
            lemma_views_of(params@);
        }
        let mut params = params;
        let nm = String::from_str(name);
        if nm == String::from_str("ping") {
            Some(Command::PING)
        } else if nm == String::from_str("set") {
            if params.len() >= 2 {
                let ghost orig = params@;
                let key = params.remove(0);
                let value = params.remove(0);
                proof {
                    assert(value == orig[1]);
                }
                Some(Command::SET { key, value })
            } else {
                None
            }
        } else if nm == String::from_str("get") {
            if params.len() >= 1 {
                let key = params.remove(0);
                Some(Command::GET { key })
            } else {
                None
            }
        } else if nm == String::from_str("del") {
            if params.len() >= 1 {
                let key = params.remove(0);
                Some(Command::DEL { key })
            } else {
                None
            }
        } else {
            None
        }
    }

    /// Recognizes a command in a decoded protocol value: an Array headed by
    /// a BulkString whose name, compared without regard to case, is one of
    /// the four commands. Returns `None` for every other value.
    pub fn from_value(value: RedisValue) -> (r: Option<Command>)
        ensures
            match spec_from_value(value@) {
                Some(c) => r matches Some(rc) && rc@ == c,
                None => r is None,
            },
    {
        match value {
            RedisValue::Array(mut items) => {
                if items.len() == 0 {
                    return None;
                }
                let ghost orig = items@;
                proof {
                    lemma_views_of(orig);
                }
                let first = items.remove(0);
                proof {
                    assert(orig.remove(0) =~= orig.drop_first());
                    lemma_views_of(orig.drop_first());
                    assert(views_of(items@) =~= views_of(orig).drop_first());
                }
                match first {
                    RedisValue::BulkString(cmd) => {
                        let folded = lowercase(cmd.as_str());
                        Command::from_folded(folded.as_str(), items)
                    },
                    _ => None,
                }
            },
            _ => None,
        }
    }
}

} // verus!
