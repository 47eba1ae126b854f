//! The agent loop's decisions: what a model output asks for next (a final
//! answer, tool calls to approve, tool calls to run, or a stop at the step
//! limit), and the session's history.
use vstd::prelude::*;

use crate::json::{json_pretty, spec_json_pretty, JsonView};
use crate::text::{decimal, push_decimal, push_str_chars, string_from_chars};
use crate::tools::parser::{call_views, parse_tool_calls, tool_calls_of};
use crate::tools::{builtin_tools, is_safe_tool, requires_approval, ToolCall, ToolDefinition, ToolResult};

verus! {

/// Agent configuration.
#[derive(Debug)]
pub struct AgentConfig {
    pub max_steps: usize,
    pub auto_approve_safe: bool,
    pub timeout_per_step_ms: u64,
    pub tools: Vec<ToolDefinition>,
}

impl Default for AgentConfig {
    /// At most ten steps, safe tools approved automatically, thirty seconds
    /// per step, and the built-in tools.
    fn default() -> (r: Self)
        ensures
            r.max_steps == 10,
            r.auto_approve_safe,
            r.timeout_per_step_ms == 30_000,
            r.tools.len() == 5,
    {
        AgentConfig {
            max_steps: 10,
            auto_approve_safe: true,
            timeout_per_step_ms: 30_000,
            tools: builtin_tools(),
        }
    }
}

/// A tool call awaiting the user's approval.
#[derive(Debug)]
pub struct PendingApproval {
    pub step: usize,
    pub tool_call: ToolCall,
    pub reason: String,
}

/// What the agent does after a model output.
#[derive(Debug)]
pub enum AgentStepResult {
    /// The model answered without tool calls: the agent is done.
    FinalResponse(String),
    /// Some tool calls need the user's approval before they run.
    NeedsApproval(Vec<PendingApproval>),
    /// All tool calls were approved automatically; their results follow.
    ToolResults(Vec<ToolResult>),
    /// The agent reached its step limit.
    MaxStepsReached(String),
    /// The agent failed.
    Error(String),
}

/// A multi-step agent run.
pub struct AgentSession {
    config: AgentConfig,
    messages: Vec<(String, String)>,
    step_count: usize,
    tool_history: Vec<(ToolCall, ToolResult)>,
}

/// The calls that wait for approval: all of them, or, when safe tools are
/// approved automatically, those that are not safe.
pub open spec fn calls_needing_approval(calls: Seq<(Seq<char>, JsonView)>, auto_approve_safe: bool) -> Seq<(Seq<char>, JsonView)>
    decreases calls.len(),
{
    if calls.len() == 0 {
        seq![]
    } else {
        let rest = calls_needing_approval(calls.drop_last(), auto_approve_safe);
        if auto_approve_safe && is_safe_tool(calls.last().0) {
            rest
        } else {
            rest.push(calls.last())
        }
    }
}

/// The approval gate: every call that is not automatically approved (a tool
/// not known to be safe, or any tool when automatic approval is off) waits
/// for the user, and nothing else does.
pub proof fn lemma_approval_gate(calls: Seq<(Seq<char>, JsonView)>, auto_approve_safe: bool)
    ensures
        forall|k: int|
            0 <= k < calls.len() && !(auto_approve_safe && is_safe_tool(calls[k].0)) ==> calls_needing_approval(
                calls,
                auto_approve_safe,
            ).contains(#[trigger] calls[k]),
        forall|c: (Seq<char>, JsonView)|
            #[trigger] calls_needing_approval(calls, auto_approve_safe).contains(c) ==> calls.contains(c) && !(
            auto_approve_safe && is_safe_tool(c.0)),
    decreases calls.len(),
{
    if calls.len() > 0 {
        let init = calls.drop_last();
        lemma_approval_gate(init, auto_approve_safe);
        let rest = calls_needing_approval(init, auto_approve_safe);
        let all = calls_needing_approval(calls, auto_approve_safe);
        assert forall|k: int|
            0 <= k < calls.len() && !(auto_approve_safe && is_safe_tool(calls[k].0)) implies all.contains(
            #[trigger] calls[k]) by {
            if k < calls.len() - 1 {
                assert(init[k] == calls[k]);
                let w = choose|w: int| 0 <= w < rest.len() && rest[w] == calls[k];
                if !(auto_approve_safe && is_safe_tool(calls.last().0)) {
                    assert(all[w] == calls[k]);
                }
            } else {
                assert(all[rest.len() as int] == calls[k]);
            }
        }
        assert forall|c: (Seq<char>, JsonView)| #[trigger] all.contains(c) implies calls.contains(c) && !(
        auto_approve_safe && is_safe_tool(c.0)) by {
            let w = choose|w: int| 0 <= w < all.len() && all[w] == c;
            if w < rest.len() {
                assert(rest[w] == c);
                assert(rest.contains(c));
                let v = choose|v: int| 0 <= v < init.len() && init[v] == c;
                assert(calls[v] == c);
            } else {
                assert(calls[calls.len() - 1] == c);
            }
        }
    }
}

/// The calls waiting for approval are exactly the parsed calls that are not
/// approved automatically, in the order the model wrote them: the calls
/// filtered by "not (automatic approval on and the tool safe)".
pub proof fn lemma_approval_order(calls: Seq<(Seq<char>, JsonView)>, auto_approve_safe: bool)
    ensures
        calls_needing_approval(calls, auto_approve_safe) == calls.filter(
            |c: (Seq<char>, JsonView)| !(auto_approve_safe && is_safe_tool(c.0)),
        ),
    decreases calls.len(),
{
    reveal_with_fuel(Seq::filter, 1);
    if calls.len() > 0 {
        lemma_approval_order(calls.drop_last(), auto_approve_safe);
    } else {
        assert(calls.filter(|c: (Seq<char>, JsonView)| !(auto_approve_safe && is_safe_tool(c.0))) =~= seq![]);
    }
}

/// Approval requests for calls written one after the other come one after
/// the other: the calls of `a` followed by those of `b` wait as the waiting
/// calls of `a` followed by those of `b`.
pub proof fn lemma_approval_concat(
    a: Seq<(Seq<char>, JsonView)>,
    b: Seq<(Seq<char>, JsonView)>,
    auto_approve_safe: bool,
)
    ensures
        calls_needing_approval(a + b, auto_approve_safe) == calls_needing_approval(a, auto_approve_safe)
            + calls_needing_approval(b, auto_approve_safe),
    decreases b.len(),
{
    if b.len() == 0 {
        assert(a + b =~= a);
        assert(calls_needing_approval(a, auto_approve_safe) + calls_needing_approval(b, auto_approve_safe)
            =~= calls_needing_approval(a, auto_approve_safe));
    } else {
        lemma_approval_concat(a, b.drop_last(), auto_approve_safe);
        assert((a + b).drop_last() =~= a + b.drop_last());
        assert((a + b).last() == b.last());
        let ra = calls_needing_approval(a, auto_approve_safe);
        let rb = calls_needing_approval(b.drop_last(), auto_approve_safe);
        assert((ra + rb).push(b.last()) =~= ra + rb.push(b.last()));
    }
}

/// `p` is the approval request made at step `step` for `call`.
pub open spec fn is_pending_for(p: PendingApproval, step: nat, call: (Seq<char>, JsonView)) -> bool {
    &&& p.step == step
    &&& p.tool_call@ == call
    &&& p.reason@ == approval_reason()
}

/// The reason given for every call that waits for approval.
pub open spec fn approval_reason() -> Seq<char> {
    "This tool modifies files or executes commands"@
}

/// The message returned at the step limit.
pub open spec fn max_steps_message(max_steps: nat, output: Seq<char>) -> Seq<char> {
    "Agent reached maximum of "@ + decimal(max_steps) + " steps. Last output:\n"@ + output
}

/// The system prompt's text for one tool.
pub open spec fn tool_section(t: ToolDefinition) -> Seq<char> {
    "\n### "@ + t.name@ + "\n"@ + t.description@ + "\nParameters: "@ + spec_json_pretty(t.parameters@)
        + "\n"@
}

/// The system prompt's text for the tools `tools`, in order.
pub open spec fn tool_sections(tools: Seq<ToolDefinition>) -> Seq<char>
    decreases tools.len(),
{
    if tools.len() == 0 {
        seq![]
    } else {
        tool_sections(tools.drop_last()) + tool_section(tools.last())
    }
}

/// The opening of the system prompt.
pub open spec fn prompt_intro() -> Seq<char> {
    "You are NexusAI, a local AI assistant with access to tools. When you need to perform an action, use the available tools. Always explain what you're going to do before calling a tool.\n\nAvailable tools:\n"@
}

/// The close of the system prompt, which teaches the ChatML call format.
pub open spec fn prompt_outro() -> Seq<char> {
    "\nTo call a tool, use this format:\n<tool_call>\n{\"name\": \"tool_name\", \"arguments\": {\"param\": \"value\"}}\n</tool_call>\n"@
}

impl AgentSession {
    pub closed spec fn spec_config(&self) -> &AgentConfig {
        &self.config
    }

    pub closed spec fn spec_messages(&self) -> Seq<(Seq<char>, Seq<char>)> {
        self.messages@.map_values(|m: (String, String)| (m.0@, m.1@))
    }

    pub closed spec fn spec_step_count(&self) -> nat {
        self.step_count as nat
    }

    pub closed spec fn spec_tool_history(&self) -> Seq<(ToolCall, ToolResult)> {
        self.tool_history@
    }

    /// A session with no steps, messages or tool history.
    pub fn new(config: AgentConfig) -> (r: Self)
        ensures
            *r.spec_config() == config,
            r.spec_messages() == Seq::<(Seq<char>, Seq<char>)>::empty(),
            r.spec_step_count() == 0,
            r.spec_tool_history() == Seq::<(ToolCall, ToolResult)>::empty(),
    {
        let r = AgentSession {
            config,
            messages: Vec::new(),
            step_count: 0,
            tool_history: Vec::new(),
        };
        assert(r.spec_messages() =~= Seq::<(Seq<char>, Seq<char>)>::empty());
        r
    }

    /// Takes one model output: counts the step, stops at the step limit,
    /// and otherwise parses the output's tool calls. No calls means the
    /// output is the final answer; calls that are not approved automatically
    /// wait for the user; when every call is approved automatically, the
    /// (still empty) results of running them are returned.
    pub fn process_output(&mut self, model_output: &str) -> (r: AgentStepResult)
        requires
            old(self).spec_step_count() < usize::MAX,
        ensures
            final(self).spec_step_count() == old(self).spec_step_count() + 1,
            *final(self).spec_config() == *old(self).spec_config(),
            final(self).spec_messages() == old(self).spec_messages(),
            final(self).spec_tool_history() == old(self).spec_tool_history(),
            ({
                let step = final(self).spec_step_count();
                let max = final(self).spec_config().max_steps;
                let calls = tool_calls_of(model_output@);
                let auto = final(self).spec_config().auto_approve_safe;
                let pending = calls_needing_approval(calls, auto);
                if step > max {
                    r matches AgentStepResult::MaxStepsReached(m) && m@ == max_steps_message(
                        max as nat,
                        model_output@,
                    )
                } else if calls.len() == 0 {
                    r matches AgentStepResult::FinalResponse(t) && t@ == model_output@
                } else if pending.len() > 0 {
                    r matches AgentStepResult::NeedsApproval(p) && p.len() == pending.len()
                        && forall|k: int|
                        0 <= k < p.len() ==> is_pending_for(#[trigger] p@[k], step, pending[k])
                } else {
                    r matches AgentStepResult::ToolResults(v) && v.len() == 0
                }
            }),
    {
        self.step_count = self.step_count + 1;
        if self.step_count > self.config.max_steps {
            let mut m: Vec<char> = Vec::new();
            push_str_chars(&mut m, "Agent reached maximum of ");
            push_decimal(&mut m, self.config.max_steps as u64);
            push_str_chars(&mut m, " steps. Last output:\n");
            push_str_chars(&mut m, model_output);
            return AgentStepResult::MaxStepsReached(string_from_chars(m.as_slice()));
        }
        let calls = parse_tool_calls(model_output);
        if calls.len() == 0 {
            assert(call_views(calls@).len() == 0);
            return AgentStepResult::FinalResponse(String::from_str(model_output));
        }
        let ghost cv = call_views(calls@);
        let auto = self.config.auto_approve_safe;
        let step = self.step_count;
        let mut needs: Vec<PendingApproval> = Vec::new();
        let mut i: usize = 0;
        assert(cv.subrange(0, 0) =~= Seq::<(Seq<char>, JsonView)>::empty());
        while i < calls.len()
            invariant
                i <= calls.len(),
                cv == call_views(calls@),
                cv.len() == calls.len(),
                forall|k: int| 0 <= k < calls.len() ==> #[trigger] cv[k] == calls@[k]@,
                needs.len() == calls_needing_approval(cv.subrange(0, i as int), auto).len(),
                forall|k: int|
                    0 <= k < needs.len() ==> is_pending_for(
                        #[trigger] needs@[k],
                        step as nat,
                        calls_needing_approval(cv.subrange(0, i as int), auto)[k],
                    ),
            decreases calls.len() - i,
        {
            let ghost sub = cv.subrange(0, i + 1);
            let ghost pend = calls_needing_approval(cv.subrange(0, i as int), auto);
            assert(sub.drop_last() =~= cv.subrange(0, i as int));
            assert(sub.last() == calls@[i as int]@);
            let call = &calls[i];
            let ghost needs_before = needs@;
            if !(auto && !requires_approval(call)) {
                needs.push(
                    PendingApproval {
                        step,
                        tool_call: call.duplicate(),
                        reason: String::from_str("This tool modifies files or executes commands"),
                    },
                );
                assert(calls_needing_approval(sub, auto) == pend.push(calls@[i as int]@));
                assert forall|k: int| 0 <= k < needs.len() implies is_pending_for(
                    #[trigger] needs@[k],
                    step as nat,
                    calls_needing_approval(sub, auto)[k],
                ) by {
                    if k < needs_before.len() {
                        assert(needs@[k] == needs_before[k]);
                        assert(is_pending_for(needs_before[k], step as nat, pend[k]));
                        assert(pend.push(calls@[i as int]@)[k] == pend[k]);
                    } else {
                        assert(k == needs_before.len());
                        assert(pend.push(calls@[i as int]@)[k] == calls@[i as int]@);
                    }
                }
            } else {
                assert(calls_needing_approval(sub, auto) == pend);
                assert forall|k: int| 0 <= k < needs.len() implies is_pending_for(
                    #[trigger] needs@[k],
                    step as nat,
                    calls_needing_approval(sub, auto)[k],
                ) by {
                    assert(is_pending_for(needs@[k], step as nat, pend[k]));
                }
            }
            assert(cv.subrange(0, i + 1) == sub);
            i = i + 1;
        }
        assert(cv.subrange(0, calls.len() as int) =~= cv);
        if needs.len() > 0 {
            return AgentStepResult::NeedsApproval(needs);
        }
        AgentStepResult::ToolResults(Vec::new())
    }

    /// Records a call that ran and its result.
    pub fn record_tool_result(&mut self, call: ToolCall, result: ToolResult)
        ensures
            final(self).spec_tool_history() == old(self).spec_tool_history().push((call, result)),
            *final(self).spec_config() == *old(self).spec_config(),
            final(self).spec_messages() == old(self).spec_messages(),
            final(self).spec_step_count() == old(self).spec_step_count(),
    {
        self.tool_history.push((call, result));
    }

    /// The system prompt: the introduction, a section for each tool with its
    /// name, description and pretty-printed parameter schema, and the
    /// ChatML call format.
    pub fn system_prompt(&self) -> (r: String)
        ensures
            r@ == prompt_intro() + tool_sections(self.spec_config().tools@) + prompt_outro(),
    {
        let mut v: Vec<char> = Vec::new();
        push_str_chars(
            &mut v,
            "You are NexusAI, a local AI assistant with access to tools. When you need to perform an action, use the available tools. Always explain what you're going to do before calling a tool.\n\nAvailable tools:\n",
        );
        let tools = &self.config.tools;
        let mut i: usize = 0;
        while i < tools.len()
            invariant
                i <= tools.len(),
                *tools == self.config.tools,
                v@ == prompt_intro() + tool_sections(tools@.subrange(0, i as int)),
            decreases tools.len() - i,
        {
            let t = &tools[i];
            push_str_chars(&mut v, "\n### ");
            push_str_chars(&mut v, t.name.as_str());
            push_str_chars(&mut v, "\n");
            push_str_chars(&mut v, t.description.as_str());
            push_str_chars(&mut v, "\nParameters: ");
            let p = json_pretty(&t.parameters);
            push_str_chars(&mut v, p.as_str());
            push_str_chars(&mut v, "\n");
            proof {
                let sub = tools@.subrange(0, i + 1);
                assert(sub.drop_last() =~= tools@.subrange(0, i as int));
                assert(sub.last() == tools@[i as int]);
            }
            i = i + 1;
        }
        assert(tools@.subrange(0, tools.len() as int) =~= tools@);
        push_str_chars(
            &mut v,
            "\nTo call a tool, use this format:\n<tool_call>\n{\"name\": \"tool_name\", \"arguments\": {\"param\": \"value\"}}\n</tool_call>\n",
        );
        string_from_chars(v.as_slice())
    }

    /// Appends a message to the conversation history.
    pub fn add_message(&mut self, role: &str, content: &str)
        ensures
            final(self).spec_messages() == old(self).spec_messages().push((role@, content@)),
            *final(self).spec_config() == *old(self).spec_config(),
            final(self).spec_step_count() == old(self).spec_step_count(),
            final(self).spec_tool_history() == old(self).spec_tool_history(),
    {
        self.messages.push((String::from_str(role), String::from_str(content)));
        assert(self.spec_messages() =~= old(self).spec_messages().push((role@, content@)));
    }

    /// The conversation history, (role, content) pairs in order.
    pub fn messages(&self) -> (r: &Vec<(String, String)>)
        ensures
            r@.map_values(|m: (String, String)| (m.0@, m.1@)) == self.spec_messages(),
    {
        &self.messages
    }

    /// The number of model outputs processed so far.
    pub fn step_count(&self) -> (r: usize)
        ensures
            r == self.spec_step_count(),
    {
        self.step_count
    }

    /// The calls that ran, with their results, in order.
    pub fn tool_history(&self) -> (r: &Vec<(ToolCall, ToolResult)>)
        ensures
            r@ == self.spec_tool_history(),
    {
        &self.tool_history
    }

    /// The session's configuration.
    pub fn config(&self) -> (r: &AgentConfig)
        ensures
            *r == *self.spec_config(),
    {
        &self.config
    }
}

} // verus!
