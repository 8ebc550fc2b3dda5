//! Path handling of the user shell: turning what was typed into a clean
//! absolute or relative path.  The prompt loop around it talks to the
//! kernel through system calls and stays outside this crate.

use vstd::prelude::*;

verus! {

use vstd::string::StringSliceAdditionalSpecFns;

/// Resolve `name` as typed at the prompt against the current directory:
/// trailing slashes are dropped, the two are joined, and the result is
/// normalised.
pub fn parse_path(current_dir: &str, name: &str) -> (r: Vec<u8>)
    requires
        current_dir.spec_bytes().len() <= 0xffff,
        name.spec_bytes().len() <= 0xffff,
    ensures
        r@.len() >= 1,
{
    let cur = current_dir.as_bytes();
    let nam = name.as_bytes();
    let mut joined: Vec<u8> = Vec::new();
    let mut i: usize = 0;
    let cn = cur.len();
    while i < cn
        invariant
            i <= cn,
            cn == cur@.len(),
            joined@.len() == i,
        decreases cn - i,
    {
        joined.push(cur[i]);
        i = i + 1;
    }
    joined.push(47u8);
    // The name with trailing slashes removed.
    let mut end = nam.len();
    while end > 0
        invariant
            end <= nam@.len(),
        decreases end,
    {
        if nam[end - 1] != 47u8 {
            break;
        }
        end = end - 1;
    }
    let mut j: usize = 0;
    while j < end
        invariant
            j <= end <= nam@.len(),
            nam@.len() <= 0xffff,
            cn <= 0xffff,
            joined@.len() == cn + 1 + j,
        decreases end - j,
    {
        joined.push(nam[j]);
        j = j + 1;
    }
    normalize_bytes(&joined)
}

/// Normalise a path: empty and `.` components vanish, `..` removes the
/// component before it (or stays, in a relative path with nothing left),
/// an absolute path keeps its leading slash, and a relative path that
/// empties out becomes `.`.
pub fn normalize_path(path: &str) -> (r: Vec<u8>)
    requires
        path.spec_bytes().len() <= 0x1_0000,
    ensures
        r@.len() >= 1,
{
    let bytes = path.as_bytes();
    let mut owned: Vec<u8> = Vec::new();
    let n = bytes.len();
    let mut i: usize = 0;
    while i < n
        invariant
            i <= n,
            n == bytes@.len(),
            owned@.len() == i,
        decreases n - i,
    {
        owned.push(bytes[i]);
        i = i + 1;
    }
    normalize_bytes(&owned)
}

/// The byte-level normalisation both entry points share.
fn normalize_bytes(path: &Vec<u8>) -> (r: Vec<u8>)
    requires
        path@.len() <= 0x4_0000,
    ensures
        r@.len() >= 1,
{
    let n = path.len();
    let is_absolute = n > 0 && path[0] == 47u8;
    let mut stack: Vec<Vec<u8>> = Vec::new();
    let mut cur: Vec<u8> = Vec::new();
    let mut i: usize = 0;
    // Split on slashes, resolving each component against the stack.
    while i <= n
        invariant
            i <= n + 1,
            n == path@.len(),
            n <= 0x4_0000,
            cur@.len() <= i,
        decreases n + 1 - i,
    {
        let at_end = i == n;
        let b = if at_end {
            47u8
        } else {
            path[i]
        };
        if b == 47u8 {
            let component = cur;
            cur = Vec::new();
            if component.len() == 0 || (component.len() == 1 && component[0] == 46u8) {
                // Empty or `.`: dropped.
            } else if component.len() == 2 && component[0] == 46u8 && component[1] == 46u8 {
                if stack.len() > 0 {
                    stack.pop();
                } else if !is_absolute {
                    stack.push(component);
                }
            } else {
                stack.push(component);
            }
        } else {
            cur.push(b);
        }
        i = i + 1;
    }
    // Reassemble.
    let mut out: Vec<u8> = Vec::new();
    if is_absolute {
        out.push(47u8);
    } else if stack.len() == 0 {
        out.push(46u8);
        return out;
    }
    let m = stack.len();
    let mut k: usize = 0;
    while k < m
        invariant
            k <= m,
            m == stack@.len(),
            out@.len() >= (if is_absolute {
                1int
            } else {
                0int
            }),
        decreases m - k,
    {
        if k > 0 {
            out.push(47u8);
        }
        let comp = &stack[k];
        let cl = comp.len();
        let mut ci: usize = 0;
        while ci < cl
            invariant
                ci <= cl,
                cl == comp@.len(),
                out@.len() >= (if is_absolute {
                    1int
                } else {
                    0int
                }),
            decreases cl - ci,
        {
            out.push(comp[ci]);
            ci = ci + 1;
        }
        k = k + 1;
    }
    if out.len() == 0 {
        out.push(46u8);
    }
    out
}

} // verus!
