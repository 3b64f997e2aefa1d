use crate::decimal::{decimal, push_decimal, push_signed, signed_decimal};
use crate::text::{chars_of, push_str, replace_all, replaced, string_of};
use vstd::hash_map::StringHashMap;
use vstd::prelude::*;

verus! {

/// The prompt that is used where the configuration names none.
pub const DEFAULT_PROMPT: &'static str = "You are a command output analyzer that provides concise, actionable summaries for AI agents.\n\
\n\
${recent_commands}\n\
\n\
Command executed: ${command}\n\
Exit code: ${exit_code}\n\
Output:\n\
\n\
${output}\n\
\n\
Generate a summary in ${summary_words} words or less following these guidelines:\n\
\n\
1. PRIORITIZE ACTIONABLE INFORMATION:\n\
\x20\x20\x20- If the command failed, identify the root cause and suggest specific fixes\n\
\x20\x20\x20- Include relevant file paths, line numbers, or error codes when available\n\
\x20\x20\x20- Highlight what needs attention vs. what succeeded\n\
\n\
2. STRUCTURE FOR CLARITY:\n\
\x20\x20\x20- Start with the outcome (success/failure) and key metrics if relevant\n\
\x20\x20\x20- Focus on errors, warnings, or unexpected behavior first\n\
\x20\x20\x20- Mention important details like test results, build status, or data counts\n\
\n\
3. BE SPECIFIC:\n\
\x20\x20\x20- Use exact error messages, file names, or identifiers when critical\n\
\x20\x20\x20- Avoid vague statements like \"something went wrong\"\n\
\x20\x20\x20- Include numbers, percentages, or counts when they provide context\n\
\n\
4. FORMAT FOR TERMINAL:\n\
\x20\x20\x20- Use plain text only (no markdown, no special formatting)\n\
\x20\x20\x20- Keep it scannable with clear, short sentences\n\
\x20\x20\x20- If the output is very long, focus on the most important parts\n\
\n\
5. NEXT STEPS:\n\
\x20\x20\x20- If errors exist, suggest concrete actions to resolve them\n\
\x20\x20\x20- If successful, note any important results or follow-up actions needed\n\
\n\
Remember: This summary will help an AI agent decide whether to investigate the full output file or proceed with the next task.";

/// Where the text generation service is, and what is asked of it.
#[derive(Debug, Clone)]
pub struct ProviderConfig {
    pub provider_type: String,
    pub url: String,
    pub model: String,
    pub prompt: String,
    pub summary_words: u32,
    pub output_length_threshold: u32,
}

/// What the configuration says of one command: `Disabled(false)` switches
/// it off, `SummaryWords` sets the length of its summaries.
#[derive(Debug, Clone)]
pub enum CommandOverride {
    Disabled(bool),
    SummaryWords { summary_words: u32 },
}

/// The configuration.
pub struct Config {
    pub provider: ProviderConfig,
    pub commands: StringHashMap<CommandOverride>,
    pub clean_up_days: u32,
    pub command_context_minutes: u32,
}

/// The kind of service that is used where the configuration names none.
pub fn default_provider_type() -> (r: String)
    ensures
        r@ == "lmstudio"@,
{
    "lmstudio".to_string()
}

/// The address of the service that is used where the configuration names none.
pub fn default_provider_url() -> (r: String)
    ensures
        r@ == "http://127.0.0.1:1234"@,
{
    "http://127.0.0.1:1234".to_string()
}

/// The model that is asked where the configuration names none.
pub fn default_model() -> (r: String)
    ensures
        r@ == "local-model"@,
{
    "local-model".to_string()
}

/// The prompt that is used where the configuration names none.
pub fn default_prompt() -> (r: String)
    ensures
        r@ == DEFAULT_PROMPT@,
{
    DEFAULT_PROMPT.to_string()
}

/// The length of a summary in words where the configuration names none.
pub fn default_summary_words() -> (r: u32)
    ensures
        r == 100,
{
    100
}

/// The threshold in words where the configuration names none: the length of a
/// summary.
pub fn default_output_length_threshold() -> (r: u32)
    ensures
        r == 100,
{
    default_summary_words()
}

/// The days that a record is kept where the configuration names none.
pub fn default_clean_up_days() -> (r: u32)
    ensures
        r == 5,
{
    5
}

/// The minutes of earlier commands that a prompt tells of where the
/// configuration names none: the prompt then tells of none.
pub fn default_command_context_minutes() -> (r: u32)
    ensures
        r == 0,
{
    0
}

/// Whether `p` holds the values that are used where the configuration
/// names none.
pub open spec fn is_default_provider(p: ProviderConfig) -> bool {
    &&& p.provider_type@ == "lmstudio"@
    &&& p.url@ == "http://127.0.0.1:1234"@
    &&& p.model@ == "local-model"@
    &&& p.prompt@ == DEFAULT_PROMPT@
    &&& p.summary_words == 100
    &&& p.output_length_threshold == 100
}

impl Default for ProviderConfig {
    /// The values that are used where the configuration names none.
    fn default() -> (r: Self)
        ensures
            is_default_provider(r),
    {
        ProviderConfig {
            provider_type: default_provider_type(),
            url: default_provider_url(),
            model: default_model(),
            prompt: default_prompt(),
            summary_words: default_summary_words(),
            output_length_threshold: default_output_length_threshold(),
        }
    }
}

impl Default for Config {
    /// The configuration that is used where there is none: no command is
    /// switched off or treated apart.
    fn default() -> (r: Self)
        ensures
            is_default_provider(r.provider),
            r.commands@ == Map::<Seq<char>, CommandOverride>::empty(),
            r.clean_up_days == 5,
            r.command_context_minutes == 0,
    {
        Config {
            provider: ProviderConfig {
                provider_type: default_provider_type(),
                url: default_provider_url(),
                model: default_model(),
                prompt: default_prompt(),
                summary_words: default_summary_words(),
                output_length_threshold: default_output_length_threshold(),
            },
            commands: StringHashMap::new(),
            clean_up_days: default_clean_up_days(),
            command_context_minutes: default_command_context_minutes(),
        }
    }
}

/// The word for how a command ended.
pub open spec fn status_word(exit_code: int) -> Seq<char> {
    if exit_code == 0 {
        "succeeded"@
    } else {
        "failed"@
    }
}

/// The lines that tell of the commands `commands`, one line each, with a
/// line feed between each two.
pub open spec fn recent_lines(commands: Seq<(Seq<char>, int)>) -> Seq<char>
    decreases commands.len(),
{
    if commands.len() == 0 {
        Seq::empty()
    } else {
        let line = "- "@ + commands.last().0 + ", "@ + status_word(commands.last().1);
        if commands.len() == 1 {
            line
        } else {
            recent_lines(commands.drop_last()) + seq!['\n'] + line
        }
    }
}

/// What the prompt says of the commands that ran before: nothing where
/// there are none.
pub open spec fn recent_text(commands: Option<Seq<(Seq<char>, int)>>) -> Seq<char> {
    match commands {
        Some(c) => if c.len() == 0 {
            Seq::empty()
        } else {
            "recently run commands:\n"@ + recent_lines(c) + "\n\n"@
        },
        None => Seq::empty(),
    }
}

/// The prompt: `template` with its placeholders filled in, one after the
/// other in this order: the commands that ran before, the command, the exit
/// code, the output, the length of the summary.
pub open spec fn prompt_of(
    template: Seq<char>,
    command: Seq<char>,
    exit_code: int,
    output: Seq<char>,
    summary_words: nat,
    recent: Option<Seq<(Seq<char>, int)>>,
) -> Seq<char> {
    replace_all(
        replace_all(
            replace_all(
                replace_all(
                    replace_all(template, "${recent_commands}"@, recent_text(recent)),
                    "${command}"@,
                    command,
                ),
                "${exit_code}"@,
                signed_decimal(exit_code),
            ),
            "${output}"@,
            output,
        ),
        "${summary_words}"@,
        decimal(summary_words),
    )
}

/// What a list of commands and exit codes holds, as plain values.
pub open spec fn command_views(commands: Seq<(String, i32)>) -> Seq<(Seq<char>, int)> {
    commands.map_values(|c: (String, i32)| (c.0@, c.1 as int))
}

/// The text that tells of the commands that ran before.
pub(crate) fn recent_commands_text(recent_commands: Option<&[(String, i32)]>) -> (r: Vec<char>)
    ensures
        r@ == recent_text(
            match recent_commands {
                Some(c) => Some(command_views(c@)),
                None => None,
            },
        ),
{
    let mut out: Vec<char> = Vec::new();
    let commands = match recent_commands {
        Some(c) => c,
        None => {
            return out;
        },
    };
    if commands.len() == 0 {
        return out;
    }
    push_str(&mut out, "recently run commands:\n");
    let ghost head = out@;
    let ghost all = command_views(commands@);
    let mut i: usize = 0;
    assert(all.take(0) =~= Seq::<(Seq<char>, int)>::empty());
    assert(head + Seq::<char>::empty() =~= head);
    while i < commands.len()
        invariant
            i <= commands.len(),
            all == command_views(commands@),
            out@ == head + recent_lines(all.take(i as int)),
        decreases commands.len() - i,
    {
        let ghost done = all.take(i as int);
        let ghost next = all.take(i + 1);
        assert(next.drop_last() == done);
        assert(next.last() == (commands@[i as int].0@, commands@[i as int].1 as int));
        let ghost before = out@;
        if i > 0 {
            out.push('\n');
        }
        push_str(&mut out, "- ");
        push_str(&mut out, commands[i].0.as_str());
        push_str(&mut out, ", ");
        if commands[i].1 == 0 {
            push_str(&mut out, "succeeded");
        } else {
            push_str(&mut out, "failed");
        }
        proof {
            let line = "- "@ + next.last().0 + ", "@ + status_word(next.last().1);
            if i > 0 {
                assert(out@ =~= head + (recent_lines(done) + seq!['\n'] + line));
            } else {
                assert(done.len() == 0);
                assert(out@ =~= head + line);
            }
        }
        i += 1;
    }
    assert(all.take(commands.len() as int) == all);
    push_str(&mut out, "\n\n");
    assert(out@ =~= "recently run commands:\n"@ + recent_lines(all) + "\n\n"@);
    out
}

impl Config {
    /// The length in words that a summary of `command` is to have: what the
    /// configuration says of the command, else what it says for all.
    pub open spec fn spec_summary_words(self, command: Seq<char>) -> u32 {
        if self.commands@.contains_key(command) {
            match self.commands@[command] {
                CommandOverride::Disabled(_) => self.provider.summary_words,
                CommandOverride::SummaryWords { summary_words } => summary_words,
            }
        } else {
            self.provider.summary_words
        }
    }

    /// The number of words up to which the output of `command` is handed
    /// on as it is: the configured threshold, and never less than the length
    /// of a summary.
    pub open spec fn spec_output_length_threshold(self, command: Seq<char>) -> u32 {
        if self.provider.output_length_threshold >= self.spec_summary_words(command) {
            self.provider.output_length_threshold
        } else {
            self.spec_summary_words(command)
        }
    }

    /// Whether the configuration switches `command` off.
    pub open spec fn spec_is_command_disabled(self, command: Seq<char>) -> bool {
        self.commands@.contains_key(command) && self.commands@[command]
            == CommandOverride::Disabled(false)
    }

    /// The length in words that a summary of `command` is to have.
    pub fn get_summary_words(&self, command: &str) -> (r: u32)
        ensures
            r == self.spec_summary_words(command@),
    {
        match self.commands.get(command) {
            Some(CommandOverride::Disabled(_)) => self.provider.summary_words,
            Some(CommandOverride::SummaryWords { summary_words }) => *summary_words,
            None => self.provider.summary_words,
        }
    }

    /// The number of words up to which the output of `command` is handed on
    /// as it is.
    pub fn get_output_length_threshold(&self, command: &str) -> (r: u32)
        ensures
            r == self.spec_output_length_threshold(command@),
    {
        let summary_words = self.get_summary_words(command);
        if self.provider.output_length_threshold >= summary_words {
            self.provider.output_length_threshold
        } else {
            summary_words
        }
    }

    /// Whether the configuration switches `command` off.
    pub fn is_command_disabled(&self, command: &str) -> (r: bool)
        ensures
            r == self.spec_is_command_disabled(command@),
    {
        match self.commands.get(command) {
            Some(CommandOverride::Disabled(enabled)) => !*enabled,
            _ => false,
        }
    }

    /// The prompt for the summary of the output of one run.
    pub fn format_prompt(
        &self,
        command: &str,
        exit_code: i32,
        output: &str,
        summary_words: u32,
        recent_commands: Option<&[(String, i32)]>,
    ) -> (r: String)
        ensures
            r@ == prompt_of(
                self.provider.prompt@,
                command@,
                exit_code as int,
                output@,
                summary_words as nat,
                match recent_commands {
                    Some(c) => Some(command_views(c@)),
                    None => None,
                },
            ),
    {
        proof {
            reveal_strlit("${recent_commands}");
            reveal_strlit("${command}");
            reveal_strlit("${exit_code}");
            reveal_strlit("${output}");
            reveal_strlit("${summary_words}");
        }
        let recent = recent_commands_text(recent_commands);
        let mut code: Vec<char> = Vec::new();
        push_signed(&mut code, exit_code as i64);
        let mut words: Vec<char> = Vec::new();
        push_decimal(&mut words, summary_words as u64);
        assert(code@ =~= signed_decimal(exit_code as int));
        assert(words@ =~= decimal(summary_words as nat));
        let template = chars_of(self.provider.prompt.as_str());
        let a = replaced(&template, &chars_of("${recent_commands}"), &recent);
        let b = replaced(&a, &chars_of("${command}"), &chars_of(command));
        let c = replaced(&b, &chars_of("${exit_code}"), &code);
        let d = replaced(&c, &chars_of("${output}"), &chars_of(output));
        let e = replaced(&d, &chars_of("${summary_words}"), &words);
        string_of(&e)
    }
}

} // verus!
