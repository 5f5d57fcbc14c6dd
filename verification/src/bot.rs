//! The Bot's side of a conversation with Users: how Agent messages are shown in a Topic,
//! which command a User typed, and what the Bot answers.
use vstd::prelude::*;
use vstd::string::StrSliceExecFns;
use crate::text::{chars_of, int_text, is_space, owned, push_int, push_str, space, str_eq};

verus! {

/// The text an Agent's message carries in Telegram: the Agent's name, a colon, a line break,
/// then the content.
pub open spec fn conversation_text(agent: Seq<char>, content: Seq<char>) -> Seq<char> {
    agent + ":\n"@ + content
}

pub fn conversation(agent: &str, content: &str) -> (s: String)
    ensures
        s@ == conversation_text(agent@, content@),
{
    let mut s = owned(agent);
    push_str(&mut s, ":\n");
    push_str(&mut s, content);
    s
}

/// Where the first word of `s` starts: after its leading whitespace.
pub open spec fn word_start(s: Seq<char>, from: int) -> int
    decreases s.len() - from,
{
    if from >= s.len() || !is_space(s[from]) {
        from
    } else {
        word_start(s, from + 1)
    }
}

/// Where the run of characters from `from` ends: at the first `@` (with `at_sign`) or the
/// first whitespace character (without).
pub open spec fn run_end(s: Seq<char>, from: int, at_sign: bool) -> int
    decreases s.len() - from,
{
    if from >= s.len() || (if at_sign {
        s[from] == '@'
    } else {
        is_space(s[from])
    }) {
        from
    } else {
        run_end(s, from + 1, at_sign)
    }
}

/// The command a message names: its first whitespace-separated word, up to any `@`.
pub open spec fn command_text(s: Seq<char>) -> Seq<char> {
    let start = word_start(s, 0);
    let word = s.subrange(start, run_end(s, start, false));
    word.subrange(0, run_end(word, 0, true))
}

proof fn lemma_word_start(s: Seq<char>, from: int)
    requires
        0 <= from <= s.len(),
    ensures
        from <= word_start(s, from) <= s.len(),
    decreases s.len() - from,
{
    if from < s.len() && is_space(s[from]) {
        lemma_word_start(s, from + 1);
    }
}

proof fn lemma_run_end(s: Seq<char>, from: int, at_sign: bool)
    requires
        0 <= from <= s.len(),
    ensures
        from <= run_end(s, from, at_sign) <= s.len(),
    decreases s.len() - from,
{
    if from < s.len() && !(if at_sign {
        s[from] == '@'
    } else {
        is_space(s[from])
    }) {
        lemma_run_end(s, from + 1, at_sign);
    }
}

pub fn command(text: &str) -> (r: &str)
    ensures
        r@ == command_text(text@),
{
    let v = chars_of(text);
    let n = v.len();
    let mut start: usize = 0;
    while start < n && space(v[start])
        invariant
            v@ == text@,
            n == v@.len(),
            start <= n,
            word_start(v@, 0) == word_start(v@, start as int),
        decreases n - start,
    {
        start = start + 1;
    }
    let mut end = start;
    while end < n && !space(v[end])
        invariant
            v@ == text@,
            n == v@.len(),
            start <= end <= n,
            word_start(v@, 0) == start,
            run_end(v@, start as int, false) == run_end(v@, end as int, false),
        decreases n - end,
    {
        end = end + 1;
    }
    let mut stop = start;
    while stop < end && v[stop] != '@'
        invariant
            v@ == text@,
            n == v@.len(),
            start <= stop <= end <= n,
            word_start(v@, 0) == start,
            run_end(v@, start as int, false) == end,
            run_end(v@.subrange(start as int, end as int), 0, true) == run_end(
                v@.subrange(start as int, end as int),
                stop - start,
                true,
            ),
        decreases end - stop,
    {
        assert(v@.subrange(start as int, end as int)[stop - start] == v@[stop as int]);
        stop = stop + 1;
    }
    proof {
        let w = v@.subrange(start as int, end as int);
        if stop < end {
            assert(w[stop - start] == v@[stop as int]);
        }
        assert(w.subrange(0, stop - start) =~= v@.subrange(start as int, stop as int));
    }
    text.substring_char(start, stop)
}

/// What the Bot knows of the User and the place of a message.
#[derive(Debug)]
pub struct Context {
    pub user: i64,
    pub admin: bool,
    pub trusted: bool,
    pub initialized: bool,
    pub group: bool,
    pub topic: Option<i64>,
    pub zh: bool,
}

pub open spec fn role_text(c: Context) -> Seq<char> {
    if c.admin {
        "administrator"@
    } else if c.trusted {
        "trusted"@
    } else {
        "untrusted"@
    }
}

pub open spec fn setup_hint(c: Context) -> Seq<char> {
    if c.initialized {
        ""@
    } else if c.zh {
        "\n尚未配置管理员，请将此 user_id 写入 Gateway 的管理员名单。"@
    } else {
        "\nNo administrator is configured. Add this user_id to the Gateway's administrator list."@
    }
}

pub open spec fn location_text(c: Context) -> Seq<char> {
    if c.group {
        if c.topic is Some {
            "Topic"@
        } else {
            "Group"@
        }
    } else {
        "private chat"@
    }
}

pub open spec fn scope_text(c: Context) -> Seq<char> {
    if c.group {
        if c.topic is Some {
            "current Topic"@
        } else {
            "current Group"@
        }
    } else if c.admin {
        "global"@
    } else {
        "personal"@
    }
}

/// The Bot's answer to `command`.
pub open spec fn reply_text(command: Seq<char>, c: Context) -> Seq<char> {
    if command == "/whoami"@ {
        "user_id: "@ + int_text(c.user as int) + "\n"@ + (if c.zh {
            "身份"@
        } else {
            "Identity"@
        }) + ": "@ + role_text(c) + setup_hint(c)
    } else if command == "/help"@ {
        "/help\n/whoami\n/manage"@
    } else if command == "/manage"@ && c.trusted && c.initialized {
        (if c.zh {
            "当前位置"@
        } else {
            "Current location"@
        }) + ": "@ + location_text(c) + "\n"@ + (if c.zh {
            "操作范围"@
        } else {
            "Action scope"@
        }) + ": "@ + scope_text(c)
    } else if c.zh {
        "请先通过 /whoami 获取身份并完成管理员配置。"@
    } else {
        "Use /whoami to obtain your identity and complete administrator setup."@
    }
}

pub fn reply(command: &str, context: Context) -> (s: String)
    ensures
        s@ == reply_text(command@, context),
{
    let c = context;
    if str_eq(command, "/whoami") {
        let mut s = owned("user_id: ");
        push_int(&mut s, c.user);
        push_str(&mut s, "\n");
        push_str(
            &mut s,
            if c.zh {
                "身份"
            } else {
                "Identity"
            },
        );
        push_str(&mut s, ": ");
        push_str(
            &mut s,
            if c.admin {
                "administrator"
            } else if c.trusted {
                "trusted"
            } else {
                "untrusted"
            },
        );
        push_str(
            &mut s,
            if c.initialized {
                ""
            } else if c.zh {
                "\n尚未配置管理员，请将此 user_id 写入 Gateway 的管理员名单。"
            } else {
                "\nNo administrator is configured. Add this user_id to the Gateway's administrator list."
            },
        );
        s
    } else if str_eq(command, "/help") {
        owned("/help\n/whoami\n/manage")
    } else if str_eq(command, "/manage") && c.trusted && c.initialized {
        let mut s = owned(
            if c.zh {
                "当前位置"
            } else {
                "Current location"
            },
        );
        push_str(&mut s, ": ");
        push_str(
            &mut s,
            if c.group {
                if c.topic.is_some() {
                    "Topic"
                } else {
                    "Group"
                }
            } else {
                "private chat"
            },
        );
        push_str(&mut s, "\n");
        push_str(
            &mut s,
            if c.zh {
                "操作范围"
            } else {
                "Action scope"
            },
        );
        push_str(&mut s, ": ");
        push_str(
            &mut s,
            if c.group {
                if c.topic.is_some() {
                    "current Topic"
                } else {
                    "current Group"
                }
            } else if c.admin {
                "global"
            } else {
                "personal"
            },
        );
        s
    } else if c.zh {
        owned("请先通过 /whoami 获取身份并完成管理员配置。")
    } else {
        owned("Use /whoami to obtain your identity and complete administrator setup.")
    }
}

} // verus!
