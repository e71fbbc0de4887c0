use vstd::prelude::*;

verus! {

/// Whether every character is an ASCII digit, and there is one at least.
pub open spec fn all_digits(s: Seq<char>) -> bool {
    s.len() > 0 && forall|i: int| 0 <= i < s.len() ==> '0' <= #[trigger] s[i] <= '9'
}

pub open spec fn digits_value(s: Seq<char>) -> nat
    decreases s.len(),
{
    if s.len() == 0 {
        0
    } else {
        digits_value(s.drop_last()) * 10 + ((s.last() as nat) - 48) as nat
    }
}

/// What `str::parse::<u32>` gives: an optional `+` and decimal digits whose
/// value fits in 32 bits.
pub open spec fn parsed_u32(s: Seq<char>) -> Option<u32> {
    let body = if s.len() > 0 && s[0] == '+' {
        s.drop_first()
    } else {
        s
    };
    if all_digits(body) && digits_value(body) <= u32::MAX {
        Some(digits_value(body) as u32)
    } else {
        None
    }
}

/// Relies on `str::parse::<u32>`, whose documentation accepts exactly an
/// optional `+` sign followed by decimal digits with a value in range.
#[verifier::external_body]
pub(crate) fn parse_u32(s: &str) -> (r: Option<u32>)
    ensures
        r == parsed_u32(s@),
{
    s.parse::<u32>().ok()
}

fn same(a: &str, b: &str) -> (r: bool)
    ensures
        r == (a@ == b@),
{
    let n = a.unicode_len();
    if n != b.unicode_len() {
        return false;
    }
    let mut k: usize = 0;
    while k < n
        invariant
            n == a@.len() == b@.len(),
            k <= n,
            forall|m: int| 0 <= m < k ==> a@[m] == b@[m],
        decreases n - k,
    {
        if a.get_char(k) != b.get_char(k) {
            return false;
        }
        k += 1;
    }
    assert(a@ =~= b@);
    true
}

/// What a numeric menu makes of one answer.
pub enum Choice {
    /// The answer is not a number.
    NotANumber,
    /// The number names no option.
    OutOfRange,
    /// The option at this index (from zero) was chosen.
    Chosen(usize),
}

/// A menu of options, answered by number (from one).
pub struct Numeric<T> {
    pub question: std::string::String,
    pub options: Vec<(std::string::String, T)>,
    pub suffix: std::string::String,
}

impl<T> Numeric<T> {
    pub fn new(question: &str) -> (r: Numeric<T>)
        ensures
            r.question@ == question@,
            r.options@.len() == 0,
            r.suffix@ == "Your choice?"@,
    {
        Numeric {
            question: std::string::String::from_str(question),
            options: Vec::new(),
            suffix: std::string::String::from_str("Your choice?"),
        }
    }

    /// Adds an option at the end.
    pub fn option(&mut self, name: &str, value: T)
        ensures
            final(self).question == old(self).question,
            final(self).suffix == old(self).suffix,
            final(self).options@.len() == old(self).options@.len() + 1,
            final(self).options@.subrange(0, old(self).options@.len() as int)
                == old(self).options@,
            final(self).options@.last().0@ == name@,
            final(self).options@.last().1 == value,
    {
        self.options.push((std::string::String::from_str(name), value));
        assert(self.options@.subrange(0, old(self).options@.len() as int) =~= old(
            self,
        ).options@);
    }

    pub fn is_empty(&self) -> (r: bool)
        ensures
            r == (self.options@.len() == 0),
    {
        self.options.len() == 0
    }

    /// Reads one answer: a number from one to the count of options.
    pub fn pick(&self, answer: &str) -> (r: Choice)
        ensures
            r == match parsed_u32(answer@) {
                None => Choice::NotANumber,
                Some(c) => if c == 0 || c > self.options@.len() {
                    Choice::OutOfRange
                } else {
                    Choice::Chosen((c - 1) as usize)
                },
            },
    {
        match parse_u32(answer) {
            None => Choice::NotANumber,
            Some(c) => if c == 0 || c as usize > self.options.len() {
                Choice::OutOfRange
            } else {
                Choice::Chosen((c - 1) as usize)
            },
        }
    }
}

/// A free-text question with a default and the last answer remembered.
pub struct String {
    pub question: std::string::String,
    pub default: std::string::String,
    pub initial: std::string::String,
}

impl String {
    pub fn new(question: &str) -> (r: String)
        ensures
            r.question@ == question@,
            r.default@.len() == 0,
            r.initial@.len() == 0,
    {
        String {
            question: std::string::String::from_str(question),
            default: std::string::String::new(),
            initial: std::string::String::new(),
        }
    }

    pub fn default(&mut self, default: &str)
        ensures
            final(self).question == old(self).question,
            final(self).initial == old(self).initial,
            final(self).default@ == default@,
    {
        self.default = std::string::String::from_str(default);
    }

    /// The prompt: the question, and the default in brackets if there is one.
    pub fn prompt(&self) -> (r: std::string::String)
        ensures
            r@ == if self.default@.len() == 0 {
                self.question@ + ": "@
            } else {
                self.question@ + " ["@ + self.default@ + "]: "@
            },
    {
        let mut p = self.question.clone();
        if self.default.as_str().unicode_len() == 0 {
            p.append(": ");
        } else {
            p.append(" [");
            p.append(self.default.as_str());
            p.append("]: ");
        }
        p
    }

    /// Takes an answer: an empty one means the default. The result is
    /// remembered as the next initial text.
    pub fn answer(&mut self, val: std::string::String) -> (r: std::string::String)
        ensures
            r@ == if val@.len() == 0 {
                old(self).default@
            } else {
                val@
            },
            final(self).initial@ == r@,
            final(self).question == old(self).question,
            final(self).default == old(self).default,
    {
        let r = if val.as_str().unicode_len() == 0 {
            self.default.clone()
        } else {
            val
        };
        self.initial = r.clone();
        r
    }
}

/// A yes/no question; a dangerous one takes nothing but `Yes` as yes.
pub struct Confirm {
    pub question: std::string::String,
    pub is_dangerous: bool,
}

pub open spec fn yes_words() -> Set<Seq<char>> {
    set!["y"@, "Y"@, "yes"@, "Yes"@, "YES"@]
}

pub open spec fn no_words() -> Set<Seq<char>> {
    set!["n"@, "N"@, "no"@, "No"@, "NO"@]
}

impl Confirm {
    pub fn new(question: &str) -> (r: Confirm)
        ensures
            r.question@ == question@,
            !r.is_dangerous,
    {
        Confirm { question: std::string::String::from_str(question), is_dangerous: false }
    }

    pub fn new_dangerous(question: &str) -> (r: Confirm)
        ensures
            r.question@ == question@,
            r.is_dangerous,
    {
        Confirm { question: std::string::String::from_str(question), is_dangerous: true }
    }

    pub fn prompt(&self) -> (r: std::string::String)
        ensures
            r@ == self.question@ + if self.is_dangerous {
                " (type `Yes`) "@
            } else {
                " [Y/n] "@
            },
    {
        let mut p = self.question.clone();
        if self.is_dangerous {
            p.append(" (type `Yes`) ");
        } else {
            p.append(" [Y/n] ");
        }
        p
    }

    /// Reads one answer; `None` means it must be asked again.
    pub fn decide(&self, answer: &str) -> (r: Option<bool>)
        ensures
            self.is_dangerous ==> r == Some(answer@ == "Yes"@),
            !self.is_dangerous ==> r == if yes_words().contains(answer@) {
                Some(true)
            } else if no_words().contains(answer@) {
                Some(false)
            } else {
                None::<bool>
            },
    {
        if self.is_dangerous {
            return Some(same(answer, "Yes"));
        }
        let is_yes = same(answer, "y") || same(answer, "Y") || same(answer, "yes") || same(
            answer,
            "Yes",
        ) || same(answer, "YES");
        let is_no = same(answer, "n") || same(answer, "N") || same(answer, "no") || same(
            answer,
            "No",
        ) || same(answer, "NO");
        if is_yes {
            Some(true)
        } else if is_no {
            Some(false)
        } else {
            None
        }
    }
}

} // verus!
