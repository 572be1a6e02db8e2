//! Chat messages: coloured, styled text components and their JSON form.
use vstd::prelude::*;
use vstd::string::StringExecFns;

verus! {

/// The colours that a chat component can have.
#[derive(Debug, Clone, Copy, PartialEq, Eq, Structural)]
pub enum ChatColor {
    Black,
    DarkBlue,
    DarkGreen,
    DarkCyan,
    DarkRed,
    Purple,
    Gold,
    Gray,
    DarkGray,
    Blue,
    BrightGreen,
    Cyan,
    Red,
    Pink,
    Yellow,
    White,
}

/// The name of a colour in the chat JSON format.
pub open spec fn color_name(c: ChatColor) -> Seq<char> {
    match c {
        ChatColor::Black => "black"@,
        ChatColor::DarkBlue => "dark_blue"@,
        ChatColor::DarkGreen => "dark_green"@,
        ChatColor::DarkCyan => "dark_cyan"@,
        ChatColor::DarkRed => "dark_red"@,
        ChatColor::Purple => "purple"@,
        ChatColor::Gold => "gold"@,
        ChatColor::Gray => "gray"@,
        ChatColor::DarkGray => "dark_gray"@,
        ChatColor::Blue => "blue"@,
        ChatColor::BrightGreen => "green"@,
        ChatColor::Cyan => "cyan"@,
        ChatColor::Red => "red"@,
        ChatColor::Pink => "pink"@,
        ChatColor::Yellow => "yellow"@,
        ChatColor::White => "white"@,
    }
}

impl ChatColor {
    /// The name of the colour as the chat JSON format writes it.
    pub fn to_string(&self) -> (s: String)
        ensures
            s@ == color_name(*self),
    {
        match self {
            ChatColor::Black => String::from_str("black"),
            ChatColor::DarkBlue => String::from_str("dark_blue"),
            ChatColor::DarkGreen => String::from_str("dark_green"),
            ChatColor::DarkCyan => String::from_str("dark_cyan"),
            ChatColor::DarkRed => String::from_str("dark_red"),
            ChatColor::Purple => String::from_str("purple"),
            ChatColor::Gold => String::from_str("gold"),
            ChatColor::Gray => String::from_str("gray"),
            ChatColor::DarkGray => String::from_str("dark_gray"),
            ChatColor::Blue => String::from_str("blue"),
            ChatColor::BrightGreen => String::from_str("green"),
            ChatColor::Cyan => String::from_str("cyan"),
            ChatColor::Red => String::from_str("red"),
            ChatColor::Pink => String::from_str("pink"),
            ChatColor::Yellow => String::from_str("yellow"),
            ChatColor::White => String::from_str("white"),
        }
    }
}

/// One piece of a chat message: its text and how it is shown.
pub struct ChatComponent {
    pub bold: bool,
    pub italic: bool,
    pub underlined: bool,
    pub strikethrough: bool,
    pub obfuscated: bool,
    pub color: ChatColor,
    pub message: String,
}

/// What a chat component holds, with its text as characters.
pub struct ChatComponentModel {
    pub bold: bool,
    pub italic: bool,
    pub underlined: bool,
    pub strikethrough: bool,
    pub obfuscated: bool,
    pub color: ChatColor,
    pub message: Seq<char>,
}

impl View for ChatComponent {
    type V = ChatComponentModel;

    open spec fn view(&self) -> ChatComponentModel {
        ChatComponentModel {
            bold: self.bold,
            italic: self.italic,
            underlined: self.underlined,
            strikethrough: self.strikethrough,
            obfuscated: self.obfuscated,
            color: self.color,
            message: self.message@,
        }
    }
}

/// How a flag is written in the chat JSON format.
pub open spec fn bool_text(b: bool) -> Seq<char> {
    if b {
        "true"@
    } else {
        "false"@
    }
}

/// The JSON object of one chat component. The text is written as it is, without escapes.
pub open spec fn component_json(c: ChatComponentModel) -> Seq<char> {
    "{\"text\":\""@ + c.message + "\",\"bold\":\""@ + bool_text(c.bold) + "\",\"italic\":\""@
        + bool_text(c.italic) + "\",\"underlined\":\""@ + bool_text(c.underlined)
        + "\",\"strikethrough\":\""@ + bool_text(c.strikethrough) + "\",\"obfuscated\":\""@
        + bool_text(c.obfuscated) + "\",\"color\":\""@ + color_name(c.color) + "\"}"@
}

fn push_bool(s: &mut String, b: bool)
    ensures
        final(s)@ == old(s)@ + bool_text(b),
{
    if b {
        s.append("true");
    } else {
        s.append("false");
    }
}

impl ChatComponent {
    /// The JSON object of this component.
    pub fn to_string(&self) -> (s: String)
        ensures
            s@ == component_json(self@),
    {
        let mut s = String::new();
        s.append("{\"text\":\"");
        s.append(self.message.as_str());
        s.append("\",\"bold\":\"");
        push_bool(&mut s, self.bold);
        s.append("\",\"italic\":\"");
        push_bool(&mut s, self.italic);
        s.append("\",\"underlined\":\"");
        push_bool(&mut s, self.underlined);
        s.append("\",\"strikethrough\":\"");
        push_bool(&mut s, self.strikethrough);
        s.append("\",\"obfuscated\":\"");
        push_bool(&mut s, self.obfuscated);
        s.append("\",\"color\":\"");
        let color = self.color.to_string();
        s.append(color.as_str());
        s.append("\"}");
        s
    }
}

/// A chat message: a list of components.
pub enum Chat {
    Nil,
    Cons(ChatComponent, Box<Chat>),
}

impl Chat {
    /// The components of the message, in order.
    pub open spec fn components(self) -> Seq<ChatComponentModel>
        decreases self,
    {
        match self {
            Chat::Nil => seq![],
            Chat::Cons(c, next) => seq![c@] + next.components(),
        }
    }
}

impl View for Chat {
    type V = Seq<ChatComponentModel>;

    open spec fn view(&self) -> Seq<ChatComponentModel> {
        self.components()
    }
}

/// The closing part of the `with` array: each component after a comma, then `]`.
pub open spec fn components_tail_json(cs: Seq<ChatComponentModel>) -> Seq<char>
    decreases cs.len(),
{
    if cs.len() == 0 {
        "]"@
    } else {
        ","@ + component_json(cs[0]) + components_tail_json(cs.drop_first())
    }
}

/// `n` copies of the placeholder `%s`.
pub open spec fn placeholders(n: nat) -> Seq<char>
    decreases n,
{
    if n == 0 {
        seq![]
    } else {
        placeholders((n - 1) as nat) + "%s"@
    }
}

/// `n` placeholders are `2 * n` characters, `%` and `s` in turn.
pub proof fn lemma_placeholders_chars(n: nat)
    ensures
        placeholders(n).len() == 2 * n,
        forall|i: int| 0 <= i < 2 * n ==> #[trigger] placeholders(n)[i] == if i % 2 == 0 {
            '%'
        } else {
            's'
        },
    decreases n,
{
    reveal_strlit("%s");
    if n > 0 {
        lemma_placeholders_chars((n - 1) as nat);
    }
}

/// The JSON form of a chat message: a translation with one placeholder per component,
/// and the components as its arguments.
pub open spec fn chat_json(cs: Seq<ChatComponentModel>) -> Seq<char> {
    "{\"translate\":\""@ + placeholders(cs.len()) + "\",\"with\":"@ + "["@ + (if cs.len() == 0 {
        components_tail_json(cs)
    } else {
        component_json(cs[0]) + components_tail_json(cs.drop_first())
    }) + "}"@
}

/// Appends to `s` each component of `c` after a comma, then `]`.
fn add_chat_components(c: &Chat, s: &mut String)
    ensures
        final(s)@ == old(s)@ + components_tail_json(c@),
    decreases c,
{
    match c {
        Chat::Cons(component, next) => {
            s.append(",");
            let text = component.to_string();
            s.append(text.as_str());
            add_chat_components(next, s);
            proof {
                assert(c@.drop_first() =~= next@);
            }
        },
        Chat::Nil => {
            s.append("]");
        },
    }
}

impl Chat {
    /// An empty message.
    pub fn new() -> (c: Chat)
        ensures
            c@ == Seq::<ChatComponentModel>::empty(),
    {
        Chat::Nil
    }

    /// The number of components.
    pub fn len(&self) -> (n: usize)
        requires
            self@.len() <= usize::MAX,
        ensures
            n == self@.len(),
        decreases self,
    {
        match self {
            Chat::Nil => 0,
            Chat::Cons(_, next) => 1 + next.len(),
        }
    }

    /// The message with `c` put first.
    pub fn prepend(self, c: ChatComponent) -> (r: Chat)
        ensures
            r@ == seq![c@] + self@,
    {
        match self {
            Chat::Nil => Chat::Cons(c, Box::new(Chat::Nil)),
            Chat::Cons(cn, n) => Chat::Cons(c, Box::new(Chat::Cons(cn, n))),
        }
    }

    /// The message with `c` put last.
    pub fn append(self, c: ChatComponent) -> (r: Chat)
        ensures
            r@ == self@.push(c@),
        decreases self,
    {
        match self {
            Chat::Nil => Chat::Cons(c, Box::new(Chat::Nil)),
            Chat::Cons(curr_c, next) => {
                let ghost rest = next@;
                let ghost first = curr_c@;
                let r = Chat::Cons(curr_c, Box::new(Chat::append(*next, c)));
                proof {
                    assert(r@ =~= seq![first] + rest.push(c@));
                }
                r
            },
        }
    }

    /// The JSON form of the message.
    pub fn to_string(&self) -> (s: String)
        requires
            self@.len() <= usize::MAX,
        ensures
            s@ == chat_json(self@),
    {
        let mut s = String::new();
        s.append("{\"translate\":\"");
        let n = self.len();
        let ghost start = s@;
        for i in 0..n
            invariant
                n == self@.len(),
                s@ == start + placeholders(i as nat),
        {
            s.append("%s");
        }
        s.append("\",\"with\":");
        s.append("[");
        match self {
            Chat::Cons(component, next) => {
                let text = component.to_string();
                s.append(text.as_str());
                add_chat_components(next, &mut s);
                proof {
                    assert(self@.drop_first() =~= next@);
                }
            },
            Chat::Nil => {
                add_chat_components(self, &mut s);
            },
        }
        s.append("}");
        s
    }
}

/// The JSON objects of the components, separated by commas.
pub open spec fn join_components(cs: Seq<ChatComponentModel>) -> Seq<char>
    decreases cs.len(),
{
    if cs.len() == 0 {
        seq![]
    } else if cs.len() == 1 {
        component_json(cs[0])
    } else {
        component_json(cs[0]) + ","@ + join_components(cs.drop_first())
    }
}

/// The end of the `with` array is a comma before each component's JSON, then `]`: a
/// comma and the comma-separated components, or `]` alone when there are none.
pub proof fn lemma_components_tail_join(cs: Seq<ChatComponentModel>)
    ensures
        components_tail_json(cs) == if cs.len() == 0 {
            "]"@
        } else {
            ","@ + join_components(cs) + "]"@
        },
    decreases cs.len(),
{
    if cs.len() > 0 {
        let rest = cs.drop_first();
        lemma_components_tail_join(rest);
        if rest.len() == 0 {
            assert(components_tail_json(cs) =~= ","@ + component_json(cs[0]) + "]"@);
        } else {
            assert(components_tail_json(cs) =~= ","@ + (component_json(cs[0]) + ","@
                + join_components(rest)) + "]"@);
        }
    }
}

/// The JSON of a chat message is the translation with one `%s` per component, and the
/// `with` array of the components' JSON objects separated by commas.
pub proof fn lemma_chat_json_join(cs: Seq<ChatComponentModel>)
    ensures
        chat_json(cs) == "{\"translate\":\""@ + placeholders(cs.len()) + "\",\"with\":"@ + "["@
            + join_components(cs) + "]"@ + "}"@,
{
    if cs.len() > 0 {
        let rest = cs.drop_first();
        lemma_components_tail_join(rest);
        if rest.len() == 0 {
            assert(component_json(cs[0]) + components_tail_json(rest) =~= join_components(cs)
                + "]"@);
        } else {
            assert(component_json(cs[0]) + components_tail_json(rest) =~= join_components(cs)
                + "]"@);
        }
    }
    assert(chat_json(cs) =~= "{\"translate\":\""@ + placeholders(cs.len()) + "\",\"with\":"@
        + "["@ + join_components(cs) + "]"@ + "}"@);
}

/// One style entry of a component's JSON: the key in quotes, a colon, and `"true"` or
/// `"false"` as the flag is on or off.
pub open spec fn style_entry(key: Seq<char>, on: bool) -> Seq<char> {
    "\""@ + key + "\":\""@ + bool_text(on) + "\""@
}

/// The separators between the parts of a component's JSON, split at the quotes.
proof fn lemma_json_separators()
    ensures
        "\",\"bold\":\""@ == "\","@ + ("\""@ + "bold"@ + "\":\""@),
        "\",\"italic\":\""@ == "\""@ + ","@ + ("\""@ + "italic"@ + "\":\""@),
        "\",\"underlined\":\""@ == "\""@ + ","@ + ("\""@ + "underlined"@ + "\":\""@),
        "\",\"strikethrough\":\""@ == "\""@ + ","@ + ("\""@ + "strikethrough"@ + "\":\""@),
        "\",\"obfuscated\":\""@ == "\""@ + ","@ + ("\""@ + "obfuscated"@ + "\":\""@),
        "\",\"color\":\""@ == "\""@ + ",\"color\":\""@,
{
    let q = "\""@;
    let sep = "\":\""@;
    assert("\",\"bold\":\""@ == "\","@ + (q + "bold"@ + sep)) by {
        reveal_strlit("\",\"bold\":\"");
        reveal_strlit("\",");
        reveal_strlit("\"");
        reveal_strlit("bold");
        reveal_strlit("\":\"");
        assert("\",\"bold\":\""@ =~= "\","@ + (q + "bold"@ + sep));
    }
    assert("\",\"italic\":\""@ == q + ","@ + (q + "italic"@ + sep)) by {
        reveal_strlit("\",\"italic\":\"");
        reveal_strlit(",");
        reveal_strlit("\"");
        reveal_strlit("italic");
        reveal_strlit("\":\"");
        assert("\",\"italic\":\""@ =~= q + ","@ + (q + "italic"@ + sep));
    }
    assert("\",\"underlined\":\""@ == q + ","@ + (q + "underlined"@ + sep)) by {
        reveal_strlit("\",\"underlined\":\"");
        reveal_strlit(",");
        reveal_strlit("\"");
        reveal_strlit("underlined");
        reveal_strlit("\":\"");
        assert("\",\"underlined\":\""@ =~= q + ","@ + (q + "underlined"@ + sep));
    }
    assert("\",\"strikethrough\":\""@ == q + ","@ + (q + "strikethrough"@ + sep)) by {
        reveal_strlit("\",\"strikethrough\":\"");
        reveal_strlit(",");
        reveal_strlit("\"");
        reveal_strlit("strikethrough");
        reveal_strlit("\":\"");
        assert("\",\"strikethrough\":\""@ =~= q + ","@ + (q + "strikethrough"@ + sep));
    }
    assert("\",\"obfuscated\":\""@ == q + ","@ + (q + "obfuscated"@ + sep)) by {
        reveal_strlit("\",\"obfuscated\":\"");
        reveal_strlit(",");
        reveal_strlit("\"");
        reveal_strlit("obfuscated");
        reveal_strlit("\":\"");
        assert("\",\"obfuscated\":\""@ =~= q + ","@ + (q + "obfuscated"@ + sep));
    }
    assert("\",\"color\":\""@ == q + ",\"color\":\""@) by {
        reveal_strlit("\",\"color\":\"");
        reveal_strlit(",\"color\":\"");
        reveal_strlit("\"");
        assert("\",\"color\":\""@ =~= q + ",\"color\":\""@);
    }
}

/// The JSON of a component is its text, then the keys `bold`, `italic`, `underlined`,
/// `strikethrough` and `obfuscated` in that order, each with the value of its own flag, then
/// the colour's name, separated by commas.
pub proof fn lemma_component_json_entries(c: ChatComponentModel)
    ensures
        component_json(c) == "{\"text\":\""@ + c.message + "\","@ + style_entry("bold"@, c.bold)
            + ","@ + style_entry("italic"@, c.italic) + ","@ + style_entry(
            "underlined"@,
            c.underlined,
        ) + ","@ + style_entry("strikethrough"@, c.strikethrough) + ","@ + style_entry(
            "obfuscated"@,
            c.obfuscated,
        ) + ",\"color\":\""@ + color_name(c.color) + "\"}"@,
{
    lemma_json_separators();
    let q = "\""@;
    let sep = "\":\""@;
    let comma = ","@;
    let kb = q + "bold"@ + sep;
    let ki = q + "italic"@ + sep;
    let ku = q + "underlined"@ + sep;
    let ks = q + "strikethrough"@ + sep;
    let ko = q + "obfuscated"@ + sep;
    let h0 = "{\"text\":\""@ + c.message + "\","@;
    let h1 = h0 + style_entry("bold"@, c.bold) + comma;
    let h2 = h1 + style_entry("italic"@, c.italic) + comma;
    let h3 = h2 + style_entry("underlined"@, c.underlined) + comma;
    let h4 = h3 + style_entry("strikethrough"@, c.strikethrough) + comma;
    let j1 = "{\"text\":\""@ + c.message + "\",\"bold\":\""@;
    assert(j1 =~= h0 + kb);
    let j2 = j1 + bool_text(c.bold) + "\",\"italic\":\""@;
    assert(j2 == h1 + ki) by {
        lemma_regroup(h0, kb, bool_text(c.bold), q, comma, ki);
    }
    let j3 = j2 + bool_text(c.italic) + "\",\"underlined\":\""@;
    assert(j3 == h2 + ku) by {
        lemma_regroup(h1, ki, bool_text(c.italic), q, comma, ku);
    }
    let j4 = j3 + bool_text(c.underlined) + "\",\"strikethrough\":\""@;
    assert(j4 == h3 + ks) by {
        lemma_regroup(h2, ku, bool_text(c.underlined), q, comma, ks);
    }
    let j5 = j4 + bool_text(c.strikethrough) + "\",\"obfuscated\":\""@;
    assert(j5 == h4 + ko) by {
        lemma_regroup(h3, ks, bool_text(c.strikethrough), q, comma, ko);
    }
    let j6 = j5 + bool_text(c.obfuscated) + "\",\"color\":\""@;
    assert(j6 == h4 + style_entry("obfuscated"@, c.obfuscated) + ",\"color\":\""@) by {
        lemma_regroup(h4, ko, bool_text(c.obfuscated), q, seq![], ",\"color\":\""@);
        assert(",\"color\":\""@ == seq![] + ",\"color\":\""@);
        assert(h4 + style_entry("obfuscated"@, c.obfuscated) + seq![] =~= h4 + style_entry(
            "obfuscated"@,
            c.obfuscated,
        ));
    }
}

/// Concatenation regrouped: an entry's key, value and closing quote together, then the
/// separator and the next key.
proof fn lemma_regroup(
    h: Seq<char>,
    k: Seq<char>,
    b: Seq<char>,
    q: Seq<char>,
    c: Seq<char>,
    k2: Seq<char>,
)
    ensures
        h + k + b + (q + c + k2) == h + (k + b + q) + c + k2,
{
    assert(h + k + b + (q + c + k2) =~= h + (k + b + q) + c + k2);
}

/// An empty message has no components, and putting a component first or last adds one.
pub proof fn lemma_chat_len_counts(c: Chat, x: ChatComponent)
    ensures
        Chat::Nil@.len() == 0,
        (seq![x@] + c@).len() == c@.len() + 1,
        c@.push(x@).len() == c@.len() + 1,
{
}

} // verus!
