//! The configuration record and its five-byte encoding.

use vstd::bytes::*;
use vstd::prelude::*;
use vstd::slice::*;

use crate::error::{GlobalError, Record, Syntax};
use crate::text::str_eq;
use crate::time::{is_parse_error, Period};

verus! {

/// Bytes of an encoded configuration: the colour flag, then the default
/// listing period in days.
pub const CONFIG_SIZE: usize = 5;

/// The user's preferences.
#[derive(Debug, Clone, Copy, PartialEq, Eq, Structural)]
pub struct Config {
    /// Whether output is coloured.
    pub print_color: bool,
    /// How far back a listing goes when no date bound is given.
    pub ls_default_period: Period,
}

/// The configuration in use before any is stored: colour on, two weeks.
pub open spec fn default_config() -> Config {
    Config { print_color: true, ls_default_period: Period::Weeks(2) }
}

/// The days that an encoded configuration stores for its period: the
/// period's days, or `u32::MAX` for a longer period.
pub open spec fn stored_days(p: Period) -> u32 {
    if p.spec_days() <= u32::MAX {
        p.spec_days() as u32
    } else {
        u32::MAX
    }
}

/// The encoding of a configuration: one byte for the colour flag, then the
/// period in days, little-endian.
pub open spec fn encode_config(c: Config) -> Seq<u8> {
    seq![if c.print_color { 1u8 } else { 0u8 }] + spec_u32_to_le_bytes(
        stored_days(c.ls_default_period),
    )
}

/// The configuration that five bytes encode.
pub open spec fn decode_config(b: Seq<u8>) -> Config {
    Config {
        print_color: b[0] != 0,
        ls_default_period: Period::Days(spec_u32_from_le_bytes(b.subrange(1, 5))),
    }
}

/// Decoding an encoded configuration gives back its colour flag, and its
/// period counted in days.
pub proof fn lemma_config_round_trip(c: Config)
    ensures
        encode_config(c).len() == CONFIG_SIZE,
        decode_config(encode_config(c)) == (Config {
            print_color: c.print_color,
            ls_default_period: Period::Days(stored_days(c.ls_default_period)),
        }),
        c.ls_default_period is Days ==> decode_config(encode_config(c)) == c,
{
    lemma_auto_spec_u32_to_from_le_bytes();
    assert(encode_config(c).subrange(1, 5) =~= spec_u32_to_le_bytes(
        stored_days(c.ls_default_period),
    ));
}

impl Default for Config {
    fn default() -> (r: Self)
        ensures
            r == default_config(),
    {
        Config { print_color: true, ls_default_period: Period::Weeks(2) }
    }
}

impl Config {
    /// Decodes the stored configuration; no bytes at all give the default.
    pub fn load(buffer: &[u8]) -> (r: Result<Self, GlobalError>)
        ensures
            buffer@.len() == 0 ==> r == Ok::<Config, GlobalError>(default_config()),
            buffer@.len() == CONFIG_SIZE ==> r == Ok::<Config, GlobalError>(
                decode_config(buffer@),
            ),
            buffer@.len() != 0 && buffer@.len() != CONFIG_SIZE ==> r == Err::<Config, GlobalError>(
                GlobalError::WrongByteLen {
                    record: Record::Config,
                    actual: buffer@.len() as usize,
                    expected: CONFIG_SIZE,
                },
            ),
    {
        if buffer.len() == 0 {
            return Ok(Config::default());
        } else if buffer.len() != CONFIG_SIZE {
            return Err(GlobalError::wrong_byte_len(Record::Config, buffer.len(), CONFIG_SIZE));
        }
        let print_color = buffer[0] != 0;
        let days = u32_from_le_bytes(slice_subrange(buffer, 1, 5));
        Ok(Config { ls_default_period: Period::Days(days), print_color })
    }

    /// Encodes the configuration in five bytes.
    pub fn save(&self) -> (r: Vec<u8>)
        ensures
            r@ == encode_config(*self),
    {
        let mut content: Vec<u8> = Vec::new();
        content.push(if self.print_color { 1u8 } else { 0u8 });
        let days = self.ls_default_period.as_days();
        let stored: u32 = if days <= u32::MAX as u64 {
            days as u32
        } else {
            u32::MAX
        };
        let mut bytes = u32_to_le_bytes(stored);
        content.append(&mut bytes);
        assert(content@ =~= encode_config(*self));
        content
    }

    /// Sets `print-color` (`true` or `false`) or `ls-default-period` (a
    /// period) from text.
    pub fn try_set(&mut self, key: &str, value: &str) -> (r: Result<(), GlobalError>)
        ensures
            key@ == "ls-default-period"@ ==> match Period::spec_parse(value@) {
                Some(p) => r is Ok && *final(self) == (Config { ls_default_period: p, ..*old(self) }),
                None => *final(self) == *old(self) && (r matches Err(e) && is_parse_error(
                    e,
                    Syntax::Period,
                    value@,
                )),
            },
            key@ == "print-color"@ ==> if value@ == "true"@ || value@ == "false"@ {
                r is Ok && *final(self) == (Config {
                    print_color: value@ == "true"@,
                    ..*old(self)
                })
            } else {
                *final(self) == *old(self) && (r matches Err(e) && is_parse_error(
                    e,
                    Syntax::Bool,
                    value@,
                ))
            },
            key@ != "ls-default-period"@ && key@ != "print-color"@ ==> *final(self) == *old(self)
                && (r matches Err(e) && e matches GlobalError::ConfigInvalidKey { key: k } && k@
                == key@),
    {
        proof {
            reveal_strlit("ls-default-period");
            reveal_strlit("print-color");
            reveal_strlit("true");
            reveal_strlit("false");
            assert("ls-default-period"@.len() != "print-color"@.len());
            assert("true"@.len() != "false"@.len());
        }
        if str_eq(key, "ls-default-period") {
            match Period::parse(value) {
                Ok(p) => {
                    self.ls_default_period = p;
                    Ok(())
                },
                Err(e) => Err(e),
            }
        } else if str_eq(key, "print-color") {
            if str_eq(value, "true") {
                self.print_color = true;
                Ok(())
            } else if str_eq(value, "false") {
                self.print_color = false;
                Ok(())
            } else {
                Err(GlobalError::parse(Syntax::Bool, value))
            }
        } else {
            Err(GlobalError::config_invalid_key(key))
        }
    }
}

} // verus!
