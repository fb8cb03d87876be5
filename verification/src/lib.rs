//! WAN Party bot: the text-processing, scoring and decision logic of the bot,
//! with contracts proved by Verus.

pub mod blacklist;
pub mod botself;
pub mod casino;
pub mod chat;
pub mod cmudict;
pub mod commands;
pub mod count_syllables;
pub mod dice;
pub mod discord_util;
pub mod jokes;
pub mod leaderboards;
pub mod lexical_analysis;
pub mod markov_haiku;
pub mod memory;
pub mod merchant;
pub mod message_handler;
pub mod numbers;
pub mod pattern;
pub mod poll;
pub mod pyrepr;
pub mod quotes;
pub mod random;
pub mod reaction;
pub mod rhymes;
pub mod sing;
pub mod text;
pub mod text_util;
pub mod thinking;
