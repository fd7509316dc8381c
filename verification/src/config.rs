//! The choice of built-in commands, and the behaviour settings of the console.

use vstd::prelude::*;

verus! {

/// A command provided by the console rather than the host application.
#[derive(Debug, Clone, Copy, PartialEq, Eq, Structural, Hash)]
pub enum BuiltinCommand {
    Clear,
    Help,
    Alias,
    Bind,
    State,
    Res,
}

impl BuiltinCommand {
    /// Every built-in command, in order.
    pub fn all() -> (r: [BuiltinCommand; 6])
        ensures
            r@ == seq![
                BuiltinCommand::Clear,
                BuiltinCommand::Help,
                BuiltinCommand::Alias,
                BuiltinCommand::Bind,
                BuiltinCommand::State,
                BuiltinCommand::Res,
            ],
    {
        let r = [
            BuiltinCommand::Clear,
            BuiltinCommand::Help,
            BuiltinCommand::Alias,
            BuiltinCommand::Bind,
            BuiltinCommand::State,
            BuiltinCommand::Res,
        ];
        assert(r@ =~= seq![
            BuiltinCommand::Clear,
            BuiltinCommand::Help,
            BuiltinCommand::Alias,
            BuiltinCommand::Bind,
            BuiltinCommand::State,
            BuiltinCommand::Res,
        ]);
        r
    }
}

/// The set of built-in commands to register.
#[derive(Debug, Clone, Copy, PartialEq, Eq, Structural)]
pub struct BuiltinCommands {
    clear: bool,
    help: bool,
    alias: bool,
    bind: bool,
    state: bool,
    res: bool,
}

impl View for BuiltinCommands {
    type V = Set<BuiltinCommand>;

    closed spec fn view(&self) -> Set<BuiltinCommand> {
        Set::new(
            |c: BuiltinCommand|
                match c {
                    BuiltinCommand::Clear => self.clear,
                    BuiltinCommand::Help => self.help,
                    BuiltinCommand::Alias => self.alias,
                    BuiltinCommand::Bind => self.bind,
                    BuiltinCommand::State => self.state,
                    BuiltinCommand::Res => self.res,
                },
        )
    }
}

impl BuiltinCommands {
    /// No built-in commands.
    pub fn none() -> (r: Self)
        ensures
            r@ == Set::<BuiltinCommand>::empty(),
    {
        let r = BuiltinCommands {
            clear: false,
            help: false,
            alias: false,
            bind: false,
            state: false,
            res: false,
        };
        assert(r@ =~= Set::<BuiltinCommand>::empty());
        r
    }

    /// Adds `command` to the set.
    pub fn insert(&mut self, command: BuiltinCommand)
        ensures
            final(self)@ == old(self)@.insert(command),
    {
        match command {
            BuiltinCommand::Clear => self.clear = true,
            BuiltinCommand::Help => self.help = true,
            BuiltinCommand::Alias => self.alias = true,
            BuiltinCommand::Bind => self.bind = true,
            BuiltinCommand::State => self.state = true,
            BuiltinCommand::Res => self.res = true,
        }
        assert(self@ =~= old(self)@.insert(command));
    }

    /// The set holding exactly `commands`.
    pub fn from_commands(commands: &[BuiltinCommand]) -> (r: Self)
        ensures
            r@ == commands@.to_set(),
    {
        let mut r = BuiltinCommands::none();
        let mut i: usize = 0;
        assert(commands@.take(0).to_set() =~= Set::<BuiltinCommand>::empty());
        while i < commands.len()
            invariant
                0 <= i <= commands@.len(),
                r@ == commands@.take(i as int).to_set(),
            decreases commands@.len() - i,
        {
            r.insert(commands[i]);
            assert(commands@.take(i + 1) =~= commands@.take(i as int).push(commands@[i as int]));
            proof {
                commands@.take(i as int).lemma_push_to_set_commute(commands@[i as int]);
            }
            i = i + 1;
        }
        assert(commands@.take(commands@.len() as int) =~= commands@);
        r
    }

    /// Every built-in command.
    pub fn all() -> (r: Self)
        ensures
            forall|c: BuiltinCommand| r@.contains(c),
    {
        let r = BuiltinCommands { clear: true, help: true, alias: true, bind: true, state: true, res: true };
        r
    }

    /// Whether `command` is in the set.
    pub fn contains(&self, command: BuiltinCommand) -> (r: bool)
        ensures
            r == self@.contains(command),
    {
        match command {
            BuiltinCommand::Clear => self.clear,
            BuiltinCommand::Help => self.help,
            BuiltinCommand::Alias => self.alias,
            BuiltinCommand::Bind => self.bind,
            BuiltinCommand::State => self.state,
            BuiltinCommand::Res => self.res,
        }
    }
}

impl Default for BuiltinCommands {
    /// `help` and `clear`.
    fn default() -> (r: Self)
        ensures
            r@ == set![BuiltinCommand::Help, BuiltinCommand::Clear],
    {
        let r = BuiltinCommands {
            clear: true,
            help: true,
            alias: false,
            bind: false,
            state: false,
            res: false,
        };
        assert(r@ =~= set![BuiltinCommand::Help, BuiltinCommand::Clear]);
        r
    }
}

/// The behaviour settings of the console (its look lives with the interface).
#[derive(Debug, Clone, Copy, PartialEq, Eq, Structural)]
pub struct ConsoleSettings {
    /// Close the console when Enter is submitted with no input.
    pub close_on_empty_submit: bool,
    /// Maximum structured output lines kept in the console buffer.
    pub max_history_lines: usize,
    /// Maximum submitted commands kept for Up/Down recall.
    pub max_command_history: usize,
    /// Maximum completion rows presented on each suggestion page.
    pub max_suggestions: usize,
}

impl Default for ConsoleSettings {
    fn default() -> (r: Self)
        ensures
            r == (ConsoleSettings {
                close_on_empty_submit: false,
                max_history_lines: 256,
                max_command_history: 500,
                max_suggestions: 5,
            }),
    {
        ConsoleSettings {
            close_on_empty_submit: false,
            max_history_lines: 256,
            max_command_history: 500,
            max_suggestions: 5,
        }
    }
}

} // verus!
