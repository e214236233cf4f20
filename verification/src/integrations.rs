//! What the wallpaper-setter and locker collaborators are handed: command
//! lines, socket commands and configuration file contents, built exactly.
//! Writing files, sockets and processes is the shell's job.

use vstd::prelude::*;

verus! {

/// The one-shot wallpaper setter driven purely by command-line arguments.
pub struct Swaybg;

impl Swaybg {
    /// The argument list: one `-o <name> -i <path>` pair per monitor, in
    /// order.
    pub fn new(wallpapers: &Vec<(String, String)>) -> (r: Vec<String>)
        ensures
            r@.len() == 4 * wallpapers@.len(),
            forall|i: int|
                0 <= i < wallpapers@.len() ==> {
                    &&& (#[trigger] r@[4 * i])@ == "-o"@
                    &&& r@[4 * i + 1]@ == wallpapers@[i].0@
                    &&& r@[4 * i + 2]@ == "-i"@
                    &&& r@[4 * i + 3]@ == wallpapers@[i].1@
                },
    {
        let n = wallpapers.len();
        let mut out: Vec<String> = Vec::new();
        let mut k: usize = 0;
        while k < n
            invariant
                n == wallpapers@.len(),
                k <= n,
                out@.len() == 4 * k,
                forall|i: int|
                    0 <= i < k ==> {
                        &&& (#[trigger] out@[4 * i])@ == "-o"@
                        &&& out@[4 * i + 1]@ == wallpapers@[i].0@
                        &&& out@[4 * i + 2]@ == "-i"@
                        &&& out@[4 * i + 3]@ == wallpapers@[i].1@
                    },
            decreases n - k,
        {
            let entry = &wallpapers[k];
            out.push("-o".to_owned());
            out.push(entry.0.clone());
            out.push("-i".to_owned());
            out.push(entry.1.clone());
            k = k + 1;
        }
        out
    }
}

/// One `-i <name>:<path> ` clause per monitor, concatenated in order.
pub open spec fn spec_swaylock_content(ws: Seq<(String, String)>) -> Seq<char>
    decreases ws.len(),
{
    if ws.len() == 0 {
        Seq::empty()
    } else {
        spec_swaylock_content(ws.drop_last()) + "-i "@ + ws.last().0@ + ":"@ + ws.last().1@ + " "@
    }
}

/// The lock screen fed by a flat argument file.
pub struct Swaylock;

impl Swaylock {
    /// The sidecar file content: the swaylock image arguments.
    pub fn config_content(wallpapers: &Vec<(String, String)>) -> (r: String)
        ensures
            r@ == spec_swaylock_content(wallpapers@),
    {
        let n = wallpapers.len();
        let mut s = String::new();
        let mut k: usize = 0;
        while k < n
            invariant
                n == wallpapers@.len(),
                k <= n,
                s@ == spec_swaylock_content(wallpapers@.take(k as int)),
            decreases n - k,
        {
            proof {
                assert(wallpapers@.take(k as int + 1).drop_last() =~= wallpapers@.take(k as int));
                assert(wallpapers@.take(k as int + 1).last() == wallpapers@[k as int]);
            }
            let entry = &wallpapers[k];
            s.append("-i ");
            s.append(entry.0.as_str());
            s.append(":");
            s.append(entry.1.as_str());
            s.append(" ");
            k = k + 1;
        }
        proof {
            assert(wallpapers@.take(n as int) =~= wallpapers@);
        }
        s
    }
}

/// One `background` block per monitor, concatenated in order.
pub open spec fn spec_hyprlock_content(ws: Seq<(String, String)>) -> Seq<char>
    decreases ws.len(),
{
    if ws.len() == 0 {
        Seq::empty()
    } else {
        spec_hyprlock_content(ws.drop_last()) + "background {\n\tmonitor = "@ + ws.last().0@
            + "\n\tpath = "@ + ws.last().1@ + "\n}\n\n"@
    }
}

/// The lock screen configured through `background` blocks.
pub struct Hyprlock;

impl Hyprlock {
    /// The sidecar file content: one `background` block per monitor.
    pub fn config_content(wallpapers: &Vec<(String, String)>) -> (r: String)
        ensures
            r@ == spec_hyprlock_content(wallpapers@),
    {
        let n = wallpapers.len();
        let mut s = String::new();
        let mut k: usize = 0;
        while k < n
            invariant
                n == wallpapers@.len(),
                k <= n,
                s@ == spec_hyprlock_content(wallpapers@.take(k as int)),
            decreases n - k,
        {
            proof {
                assert(wallpapers@.take(k as int + 1).drop_last() =~= wallpapers@.take(k as int));
                assert(wallpapers@.take(k as int + 1).last() == wallpapers@[k as int]);
            }
            let entry = &wallpapers[k];
            s.append("background {\n\tmonitor = ");
            s.append(entry.0.as_str());
            s.append("\n\tpath = ");
            s.append(entry.1.as_str());
            s.append("\n}\n\n");
            k = k + 1;
        }
        proof {
            assert(wallpapers@.take(n as int) =~= wallpapers@);
        }
        s
    }
}

/// The response contains an acknowledgement: the two letters of "ok" in
/// either case, adjacent, anywhere in the raw bytes.
pub open spec fn spec_ack_ok(bs: Seq<u8>) -> bool {
    exists|i: int|
        0 <= i && i + 2 <= bs.len() && ((#[trigger] bs[i]) == 0x6f || bs[i] == 0x4f) && (bs[i + 1]
            == 0x6b || bs[i + 1] == 0x4b)
}

/// The wallpaper daemon driven over its socket.
pub struct Hyprpaper;

impl Hyprpaper {
    /// The command that unloads all previously loaded wallpapers.
    pub fn unload_command() -> (r: String)
        ensures
            r@ == "unload all"@,
    {
        "unload all".to_owned()
    }

    /// The command that preloads one wallpaper file.
    pub fn preload_command(path: &String) -> (r: String)
        ensures
            r@ == "preload "@ + path@,
    {
        let mut s = "preload ".to_owned();
        s.append(path.as_str());
        s
    }

    /// The command that sets one monitor's wallpaper.
    pub fn wallpaper_command(monitor: &String, path: &String) -> (r: String)
        ensures
            r@ == "wallpaper "@ + monitor@ + ","@ + path@,
    {
        let mut s = "wallpaper ".to_owned();
        s.append(monitor.as_str());
        s.append(",");
        s.append(path.as_str());
        proof {
            assert(s@ =~= "wallpaper "@ + monitor@ + ","@ + path@);
        }
        s
    }

    /// Whether a raw socket response acknowledges the command: it carries
    /// "ok" in any letter case.
    pub fn ack_ok(response: &Vec<u8>) -> (r: bool)
        ensures
            r == spec_ack_ok(response@),
    {
        let n = response.len();
        if n < 2 {
            return false;
        }
        let mut i: usize = 0;
        while i < n - 1
            invariant
                2 <= n == response@.len(),
                i + 1 <= n,
                forall|j: int|
                    0 <= j < i ==> !(((#[trigger] response@[j]) == 0x6f || response@[j] == 0x4f) && (
                    response@[j + 1] == 0x6b || response@[j + 1] == 0x4b)),
            decreases n - i,
        {
            let a = response[i];
            let b = response[i + 1];
            if (a == 0x6f || a == 0x4f) && (b == 0x6b || b == 0x4b) {
                return true;
            }
            i = i + 1;
        }
        false
    }
}

/// The `[<name>]` path table per monitor, concatenated in order.
pub open spec fn spec_wpaperd_entries(ws: Seq<(String, String)>) -> Seq<char>
    decreases ws.len(),
{
    if ws.len() == 0 {
        Seq::empty()
    } else {
        spec_wpaperd_entries(ws.drop_last()) + "["@ + ws.last().0@ + "]\npath = \""@
            + ws.last().1@ + "\"\n\n"@
    }
}

/// The whole wpaperd configuration: the cache key in a comment header, a
/// default section with the input image, then one section per monitor.
pub open spec fn spec_wpaperd_content(
    hash: Seq<char>,
    default_path: Seq<char>,
    ws: Seq<(String, String)>,
) -> Seq<char> {
    "# "@ + hash + "\n# DO NOT EDIT! AUTOGENERATED CONFIG!\n\n[default]\npath = \""@ + default_path
        + "\"\n\n"@ + spec_wpaperd_entries(ws)
}

/// The wallpaper daemon configured through a generated file.
pub struct Wpaperd;

impl Wpaperd {
    /// Builds the configuration file content for one run.
    pub fn build_content(
        hash: &String,
        default_path: &String,
        wallpapers: &Vec<(String, String)>,
    ) -> (r: String)
        ensures
            r@ == spec_wpaperd_content(hash@, default_path@, wallpapers@),
    {
        let mut s = "# ".to_owned();
        s.append(hash.as_str());
        s.append("\n# DO NOT EDIT! AUTOGENERATED CONFIG!\n\n[default]\npath = \"");
        s.append(default_path.as_str());
        s.append("\"\n\n");
        let ghost header = s@;
        let n = wallpapers.len();
        let mut k: usize = 0;
        while k < n
            invariant
                n == wallpapers@.len(),
                k <= n,
                s@ == header + spec_wpaperd_entries(wallpapers@.take(k as int)),
            decreases n - k,
        {
            proof {
                assert(wallpapers@.take(k as int + 1).drop_last() =~= wallpapers@.take(k as int));
                assert(wallpapers@.take(k as int + 1).last() == wallpapers@[k as int]);
            }
            let entry = &wallpapers[k];
            s.append("[");
            s.append(entry.0.as_str());
            s.append("]\npath = \"");
            s.append(entry.1.as_str());
            s.append("\"\n\n");
            proof {
                assert(s@ =~= header + spec_wpaperd_entries(wallpapers@.take(k as int + 1)));
            }
            k = k + 1;
        }
        proof {
            assert(wallpapers@.take(n as int) =~= wallpapers@);
            assert(s@ =~= spec_wpaperd_content(hash@, default_path@, wallpapers@));
        }
        s
    }

    /// Whether an existing configuration file was generated for this cache
    /// key: its content starts with the key's comment header.
    pub fn check_existing(content: &String, hash: &String) -> (r: bool)
        ensures
            r == (content@.len() >= hash@.len() + 2 && content@.subrange(
                0,
                hash@.len() as int + 2,
            ) == "# "@ + hash@),
    {
        let c = content.as_str();
        let h = hash.as_str();
        let cn = c.unicode_len();
        let hn = h.unicode_len();
        if cn < 2 || hn > cn - 2 {
            return false;
        }
        proof {
            reveal_strlit("# ");
        }
        let ghost target = "# "@ + hash@;
        if c.get_char(0) != '#' || c.get_char(1) != ' ' {
            proof {
                assert(content@.subrange(0, hash@.len() as int + 2)[0] == content@[0]);
                assert(content@.subrange(0, hash@.len() as int + 2)[1] == content@[1]);
                assert(target[0] == '#' && target[1] == ' ');
            }
            return false;
        }
        let mut i: usize = 0;
        while i < hn
            invariant
                c@ == content@,
                h@ == hash@,
                target == "# "@ + hash@,
                cn == content@.len(),
                hn == hash@.len(),
                hn + 2 <= cn,
                i <= hn,
                content@[0] == '#',
                content@[1] == ' ',
                forall|j: int| 0 <= j < i ==> content@[j + 2] == hash@[j],
            decreases hn - i,
        {
            if c.get_char(i + 2) != h.get_char(i) {
                proof {
                    reveal_strlit("# ");
                    assert(content@.subrange(0, hash@.len() as int + 2)[i as int + 2]
                        == content@[i as int + 2]);
                    assert(target[i as int + 2] == hash@[i as int]);
                }
                return false;
            }
            i = i + 1;
        }
        proof {
            assert(content@.subrange(0, hash@.len() as int + 2) =~= target);
        }
        true
    }
}

} // verus!
