//! The helper's sub-commands.

use vstd::prelude::*;

use crate::units::str_eq;

verus! {

/// A sub-command of the helper executable.
#[derive(Debug, Clone, Copy, PartialEq, Eq, Structural)]
pub enum Command {
    Lock,
    Unlock,
    Status,
    Install,
    Reinstall,
    Uninstall,
    RestartExplorer,
}

impl Command {
    /// The word that names the command on the command line.
    pub open spec fn word(self) -> Seq<char> {
        match self {
            Command::Lock => seq!['l', 'o', 'c', 'k'],
            Command::Unlock => seq!['u', 'n', 'l', 'o', 'c', 'k'],
            Command::Status => seq!['s', 't', 'a', 't', 'u', 's'],
            Command::Install => seq!['i', 'n', 's', 't', 'a', 'l', 'l'],
            Command::Reinstall => seq!['r', 'e', 'i', 'n', 's', 't', 'a', 'l', 'l'],
            Command::Uninstall => seq!['u', 'n', 'i', 'n', 's', 't', 'a', 'l', 'l'],
            Command::RestartExplorer => seq![
                'r', 'e', 's', 't', 'a', 'r', 't', '-', 'e', 'x', 'p', 'l', 'o', 'r', 'e', 'r',
            ],
        }
    }

    /// The command a word names, if any.
    pub open spec fn named(s: Seq<char>) -> Option<Command> {
        if s == Command::Lock.word() {
            Some(Command::Lock)
        } else if s == Command::Unlock.word() {
            Some(Command::Unlock)
        } else if s == Command::Status.word() {
            Some(Command::Status)
        } else if s == Command::Install.word() {
            Some(Command::Install)
        } else if s == Command::Reinstall.word() {
            Some(Command::Reinstall)
        } else if s == Command::Uninstall.word() {
            Some(Command::Uninstall)
        } else if s == Command::RestartExplorer.word() {
            Some(Command::RestartExplorer)
        } else {
            None
        }
    }

    /// Whether the command operates on paths.
    pub open spec fn wants_paths(self) -> bool {
        self is Lock || self is Unlock || self is Status
    }

    pub fn parse(s: &str) -> (r: Option<Command>)
        ensures
            r == Command::named(s@),
    {
        let all = [
            Command::Lock,
            Command::Unlock,
            Command::Status,
            Command::Install,
            Command::Reinstall,
            Command::Uninstall,
            Command::RestartExplorer,
        ];
        let mut i: usize = 0;
        while i < 7
            invariant
                i <= 7,
                all@ == seq![
                    Command::Lock,
                    Command::Unlock,
                    Command::Status,
                    Command::Install,
                    Command::Reinstall,
                    Command::Uninstall,
                    Command::RestartExplorer,
                ],
                forall|j: int| 0 <= j < i ==> s@ != (#[trigger] all@[j]).word(),
            decreases 7 - i,
        {
            let c = all[i];
            if str_eq(s, c.as_str()) {
                return Some(c);
            }
            i = i + 1;
        }
        None
    }

    pub fn takes_paths(self) -> (r: bool)
        ensures
            r == self.wants_paths(),
    {
        match self {
            Command::Lock | Command::Unlock | Command::Status => true,
            _ => false,
        }
    }

    pub fn as_str(self) -> (r: &'static str)
        ensures
            r@ == self.word(),
    {
        match self {
            Command::Lock => {
                proof { reveal_strlit("lock"); }
                "lock"
            },
            Command::Unlock => {
                proof { reveal_strlit("unlock"); }
                "unlock"
            },
            Command::Status => {
                proof { reveal_strlit("status"); }
                "status"
            },
            Command::Install => {
                proof { reveal_strlit("install"); }
                "install"
            },
            Command::Reinstall => {
                proof { reveal_strlit("reinstall"); }
                "reinstall"
            },
            Command::Uninstall => {
                proof { reveal_strlit("uninstall"); }
                "uninstall"
            },
            Command::RestartExplorer => {
                proof { reveal_strlit("restart-explorer"); }
                "restart-explorer"
            },
        }
    }
}

/// Every command is named by its own word and by no other: parsing what
/// `as_str` spells gives the command back.
pub proof fn lemma_word_names_command(c: Command)
    ensures
        Command::named(c.word()) == Some(c),
{
    let w = c.word();
    assert(Command::Lock.word()[0] == 'l');
    assert(Command::Unlock.word()[0] == 'u');
    assert(Command::Status.word()[0] == 's');
    assert(Command::Install.word()[0] == 'i');
    assert(Command::Reinstall.word()[2] == 'i');
    assert(Command::Uninstall.word()[2] == 'i');
    assert(Command::RestartExplorer.word()[2] == 's');
    assert(Command::Unlock.word()[2] == 'l');
    match c {
        Command::Lock => {},
        Command::Unlock => {
            assert(w[0] != Command::Lock.word()[0]);
        },
        Command::Status => {
            assert(w.len() != Command::Lock.word().len());
            assert(w[0] != Command::Unlock.word()[0]);
        },
        Command::Install => {},
        Command::Reinstall => {
            assert(w[0] != Command::Install.word()[0] || w.len() != Command::Install.word().len());
        },
        Command::Uninstall => {
            assert(w[0] != Command::Reinstall.word()[0]);
        },
        Command::RestartExplorer => {},
    }
}

} // verus!
