//! Expansion of the escapes of `/etc/issue`, as getty does it, given the
//! system values the escapes stand for.

use vstd::prelude::*;

use crate::terminal::textops::string_from_chars;

verus! {

/// The values the escapes of `/etc/issue` stand for.
pub struct IssueValues {
    /// `\d`: the current date
    pub date: Vec<char>,
    /// `\t`: the current time
    pub time: Vec<char>,
    /// `\l`: the TTY name
    pub tty: Vec<char>,
    /// `\m`: the machine architecture
    pub machine: Vec<char>,
    /// `\n`: the host name
    pub hostname: Vec<char>,
    /// `\o`: the domain name
    pub domain: Vec<char>,
    /// `\r`: the kernel release
    pub release: Vec<char>,
    /// `\s`: the kernel name
    pub sysname: Vec<char>,
    /// `\v`: the kernel version
    pub version: Vec<char>,
}

/// What the escape `\c` becomes: the value it names, a backslash for `\\`,
/// and itself for any other character.
pub open spec fn escape_value(v: IssueValues, c: char) -> Seq<char> {
    if c == 'd' {
        v.date@
    } else if c == 'l' {
        v.tty@
    } else if c == 'm' {
        v.machine@
    } else if c == 'n' {
        v.hostname@
    } else if c == 'o' {
        v.domain@
    } else if c == 'r' {
        v.release@
    } else if c == 's' {
        v.sysname@
    } else if c == 't' {
        v.time@
    } else if c == 'v' {
        v.version@
    } else if c == '\\' {
        seq!['\\']
    } else {
        seq!['\\', c]
    }
}

/// The text with its escapes expanded, from position `i` on; a backslash
/// at the very end stays.
pub open spec fn expanded_from(s: Seq<char>, v: IssueValues, i: int) -> Seq<char>
    decreases s.len() - i,
{
    if i < 0 || i >= s.len() {
        seq![]
    } else if s[i] == '\\' {
        if i + 1 >= s.len() {
            seq!['\\']
        } else {
            escape_value(v, s[i + 1]) + expanded_from(s, v, i + 2)
        }
    } else {
        seq![s[i]] + expanded_from(s, v, i + 1)
    }
}

fn push_chars(out: &mut Vec<char>, s: &Vec<char>)
    ensures
        final(out)@ == old(out)@ + s@,
{
    let mut i: usize = 0;
    while i < s.len()
        invariant
            0 <= i <= s@.len(),
            out@ == old(out)@ + s@.subrange(0, i as int),
        decreases s@.len() - i,
    {
        out.push(s[i]);
        i = i + 1;
        proof {
            assert(out@ =~= old(out)@ + s@.subrange(0, i as int));
        }
    }
    proof {
        assert(s@.subrange(0, s@.len() as int) =~= s@);
    }
}

fn push_escape(out: &mut Vec<char>, v: &IssueValues, c: char)
    ensures
        final(out)@ == old(out)@ + escape_value(*v, c),
{
    if c == 'd' {
        push_chars(out, &v.date);
    } else if c == 'l' {
        push_chars(out, &v.tty);
    } else if c == 'm' {
        push_chars(out, &v.machine);
    } else if c == 'n' {
        push_chars(out, &v.hostname);
    } else if c == 'o' {
        push_chars(out, &v.domain);
    } else if c == 'r' {
        push_chars(out, &v.release);
    } else if c == 's' {
        push_chars(out, &v.sysname);
    } else if c == 't' {
        push_chars(out, &v.time);
    } else if c == 'v' {
        push_chars(out, &v.version);
    } else if c == '\\' {
        out.push('\\');
        proof {
            assert(final(out)@ =~= old(out)@ + seq!['\\']);
        }
    } else {
        out.push('\\');
        out.push(c);
        proof {
            assert(final(out)@ =~= old(out)@ + seq!['\\', c]);
        }
    }
}

/// Expands the escapes of the `/etc/issue` text `content` (see
/// [`expanded_from`]).
pub fn expand_issue(content: &Vec<char>, values: &IssueValues) -> (r: String)
    ensures
        r@ == expanded_from(content@, *values, 0),
{
    let mut out: Vec<char> = Vec::new();
    let mut i: usize = 0;
    while i < content.len()
        invariant
            0 <= i <= content@.len(),
            out@ + expanded_from(content@, *values, i as int) == expanded_from(content@, *values, 0),
        decreases content@.len() - i,
    {
        let c = content[i];
        if c == '\\' {
            if i + 1 >= content.len() {
                out.push('\\');
                proof {
                    assert(expanded_from(content@, *values, i + 1) =~= Seq::<char>::empty());
                }
                i = i + 1;
            } else {
                let ghost before = out@;
                push_escape(&mut out, values, content[i + 1]);
                proof {
                    assert(before + expanded_from(content@, *values, i as int) =~= out@
                        + expanded_from(content@, *values, i + 2));
                }
                i = i + 2;
            }
        } else {
            let ghost before = out@;
            out.push(c);
            proof {
                assert(before + expanded_from(content@, *values, i as int) =~= out@
                    + expanded_from(content@, *values, i + 1));
            }
            i = i + 1;
        }
    }
    proof {
        assert(out@ + Seq::<char>::empty() =~= out@);
    }
    string_from_chars(&out)
}

} // verus!
