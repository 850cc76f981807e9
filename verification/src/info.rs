use vstd::prelude::*;
use crate::desktop::{desktop_lines, option_view, string_views, DesktopEnvironment};
use crate::text::{
    law_first_line_containing, law_words_append, law_words_first, law_first_keyed_line, law_lines_of_concatenation, law_decimal_round_trip, law_trim_set_exact, lemma_first_match_unique, matches_at,
    law_count_starting_with_append, after_last, after_last_vec, append_vec, chars_of, count_lines_starting_with,
    count_starting_with, decimal, decimal_vec, find_line, first_starting_with, lines, lines_vec,
    second_field, second_field_vec, string_of, trim, trim_set, trim_set_vec, trim_vec, words,
    words_vec, CharSet, contains, contains_vec, replace_all, replace_vec, split_once,
    split_once_vec, join, join_vec, views, first_containing, starts_with, parse_u64,
    parse_u64_vec,
};

verus! {

/// Everything that the fetch shows about the system.
pub struct SystemInfo {
    pub user: String,
    pub hostname: String,
    pub os: String,
    pub kernel: String,
    pub uptime: String,
    pub cpu: String,
    pub memory: String,
    pub shell: String,
    pub desktop_environment: DesktopEnvironment,
    pub disk: String,
    pub gpu: String,
    pub terminal: String,
    pub locale: String,
    pub packages: String,
    pub host: String,
    pub swap: String,
    pub battery: String,
    pub ip: String,
}

/// The text of a source that could be read, or "Unknown".
pub open spec fn or_unknown(o: Option<Seq<char>>) -> Seq<char> {
    match o {
        Some(s) => s,
        None => "Unknown"@,
    }
}

fn chars_or_unknown(o: &Option<String>) -> (r: Vec<char>)
    ensures
        r@ == or_unknown(option_view(*o)),
{
    match o {
        Some(s) => chars_of(s.as_str()),
        None => chars_of("Unknown"),
    }
}

/// The text after `key` (up to a further `=`) on the first line of `contents` that starts
/// with `key`, or "Unknown".
pub open spec fn keyed_value(contents: Seq<char>, key: Seq<char>) -> Seq<char> {
    let line = match first_starting_with(lines(contents), key) {
        Some(l) => l,
        None => "Unknown"@,
    };
    match second_field(line, '=') {
        Some(f) => f,
        None => "Unknown"@,
    }
}

/// The pretty name of the OS in `/etc/os-release`, without its quotes.
pub open spec fn os_pretty_name(os_release: Option<Seq<char>>) -> Seq<char> {
    trim_set(keyed_value(or_unknown(os_release), "PRETTY_NAME="@), CharSet::Char('"'))
}

/// The ID of the OS in `/etc/os-release`.
pub open spec fn os_id(os_release: Option<Seq<char>>) -> Seq<char> {
    trim(keyed_value(or_unknown(os_release), "ID="@))
}

/// The first word of `/proc/uptime`: the seconds since boot, as text.
pub open spec fn uptime_text(contents: Option<Seq<char>>) -> Seq<char> {
    let ws = words(trim(
        match contents {
            Some(c) => c,
            None => "0.0 hours, 0.0 mins"@,
        },
    ));
    if ws.len() > 0 {
        ws[0]
    } else {
        "0.0"@
    }
}

/// The uptime in whole hours and the remaining whole minutes.
pub open spec fn uptime_line(seconds: u64) -> Seq<char> {
    decimal(seconds as nat / 60 / 60) + " hours, "@ + decimal((seconds as nat / 60) % 60) + " mins"@
}

/// The CPU model named on the first `model name` line of `/proc/cpuinfo`.
pub open spec fn cpu_model(cpuinfo: Seq<char>) -> Seq<char> {
    let line = match first_starting_with(lines(cpuinfo), "model name"@) {
        Some(l) => l,
        None => "Unknown"@,
    };
    trim(
        match second_field(line, ':') {
            Some(f) => f,
            None => "Unknown"@,
        },
    )
}

/// The CPU line: model, number of `processor` entries, and the clock in GHz as formatted.
pub open spec fn cpu_line(cpuinfo: Option<Seq<char>>, ghz: Seq<char>) -> Seq<char> {
    let c = or_unknown(cpuinfo);
    cpu_model(c) + " ("@ + decimal(count_starting_with(lines(c), "processor"@)) + ") @ "@ + ghz
        + " GHz"@
}

/// The value (second word) of the first line of `/proc/meminfo` that starts with `label`,
/// or "Unknown".
pub open spec fn meminfo_text(meminfo: Option<Seq<char>>, label: Seq<char>) -> Seq<char> {
    let line = match first_starting_with(lines(or_unknown(meminfo)), label) {
        Some(l) => l,
        None => "Unknown"@,
    };
    trim(
        if words(line).len() > 1 {
            words(line)[1]
        } else {
            "Unknown"@
        },
    )
}

/// The host line: product name and product family.
pub open spec fn host_line(product_name: Option<Seq<char>>, product_family: Option<Seq<char>>) -> Seq<
    char,
> {
    trim(or_unknown(product_name)) + " ("@ + trim(or_unknown(product_family)) + ")"@
}

fn text_from(v: &Vec<char>) -> (r: String)
    ensures
        r@ == v@,
{
    string_of(v)
}

impl SystemInfo {
    /// The user name (`$USER`), trimmed.
    pub fn read_user(user: Option<String>) -> (r: String)
        ensures
            r@ == trim(or_unknown(option_view(user))),
    {
        text_from(&trim_vec(&chars_or_unknown(&user)))
    }

    /// The host name (`/etc/hostname`), trimmed.
    pub fn read_hostname(hostname: Option<String>) -> (r: String)
        ensures
            r@ == trim(or_unknown(option_view(hostname))),
    {
        text_from(&trim_vec(&chars_or_unknown(&hostname)))
    }

    /// The pretty name of the OS, from the contents of `/etc/os-release`.
    pub fn read_os(os_release: Option<String>) -> (r: String)
        ensures
            r@ == os_pretty_name(option_view(os_release)),
    {
        let v = keyed_value_vec(&chars_or_unknown(&os_release), &chars_of("PRETTY_NAME="));
        text_from(&trim_set_vec(&v, CharSet::Char('"')))
    }

    /// The ID of the OS, from the contents of `/etc/os-release`.
    pub fn read_os_id(os_release: Option<String>) -> (r: String)
        ensures
            r@ == os_id(option_view(os_release)),
    {
        let v = keyed_value_vec(&chars_or_unknown(&os_release), &chars_of("ID="));
        text_from(&trim_vec(&v))
    }

    /// The kernel, from the contents of `/proc/sys/kernel/osrelease`.
    pub fn read_kernel(osrelease: Option<String>) -> (r: String)
        ensures
            r@ == "Linux "@ + trim(or_unknown(option_view(osrelease))),
    {
        let mut v = chars_of("Linux ");
        append_vec(&mut v, &trim_vec(&chars_or_unknown(&osrelease)));
        text_from(&v)
    }

    /// The seconds since boot as `/proc/uptime` gives them (its first word), to be read as a
    /// number.
    pub fn uptime_field(uptime: Option<String>) -> (r: String)
        ensures
            r@ == uptime_text(option_view(uptime)),
    {
        let c = match &uptime {
            Some(c) => chars_of(c.as_str()),
            None => chars_of("0.0 hours, 0.0 mins"),
        };
        let ws = words_vec(&trim_vec(&c));
        if ws.len() > 0 {
            text_from(&ws[0])
        } else {
            "0.0".to_owned()
        }
    }

    /// The uptime, `seconds` since boot, in hours and minutes.
    pub fn read_uptime(seconds: u64) -> (r: String)
        ensures
            r@ == uptime_line(seconds),
    {
        let minutes = seconds / 60;
        let hours = minutes / 60;
        let mut v = decimal_vec(hours);
        append_vec(&mut v, &chars_of(" hours, "));
        append_vec(&mut v, &decimal_vec(minutes % 60));
        append_vec(&mut v, &chars_of(" mins"));
        text_from(&v)
    }

    /// The CPU line, from the contents of `/proc/cpuinfo` and the maximal clock in GHz as
    /// it is to be shown.
    pub fn read_cpu(cpuinfo: Option<String>, ghz: &str) -> (r: String)
        ensures
            r@ == cpu_line(option_view(cpuinfo), ghz@),
    {
        let c = chars_or_unknown(&cpuinfo);
        let ls = lines_vec(&c);
        let line = match find_line(&ls, &chars_of("model name"), false) {
            Some(l) => l,
            None => chars_of("Unknown"),
        };
        let field = match second_field_vec(&line, ':') {
            Some(f) => f,
            None => chars_of("Unknown"),
        };
        let mut v = trim_vec(&field);
        let cores = count_lines_starting_with(&ls, &chars_of("processor"));
        append_vec(&mut v, &chars_of(" ("));
        append_vec(&mut v, &decimal_vec(cores as u64));
        append_vec(&mut v, &chars_of(") @ "));
        append_vec(&mut v, &chars_of(ghz));
        append_vec(&mut v, &chars_of(" GHz"));
        text_from(&v)
    }

    /// The value of the field `label` of `/proc/meminfo` (kibibytes as text), to be read as a
    /// number.
    pub fn meminfo_field(meminfo: Option<String>, label: &str) -> (r: String)
        ensures
            r@ == meminfo_text(option_view(meminfo), label@),
    {
        let ls = lines_vec(&chars_or_unknown(&meminfo));
        let line = match find_line(&ls, &chars_of(label), false) {
            Some(l) => l,
            None => chars_of("Unknown"),
        };
        let ws = words_vec(&line);
        if ws.len() > 1 {
            text_from(&trim_vec(&ws[1]))
        } else {
            text_from(&trim_vec(&chars_of("Unknown")))
        }
    }

    /// The shell's name: what follows the last `/` of `$SHELL`.
    pub fn read_shell(shell: Option<String>) -> (r: String)
        ensures
            r@ == after_last(or_unknown(option_view(shell)), '/'),
    {
        text_from(&after_last_vec(&chars_or_unknown(&shell), '/'))
    }

    /// The locale (`$LANG`).
    pub fn read_locale(lang: Option<String>) -> (r: String)
        ensures
            r@ == or_unknown(option_view(lang)),
    {
        match lang {
            Some(l) => l,
            None => "Unknown".to_owned(),
        }
    }

    /// The host line, from `/sys/class/dmi/id/product_name` and `product_family`.
    pub fn read_host(product_name: Option<String>, product_family: Option<String>) -> (r: String)
        ensures
            r@ == host_line(option_view(product_name), option_view(product_family)),
    {
        let mut v = trim_vec(&chars_or_unknown(&product_name));
        append_vec(&mut v, &chars_of(" ("));
        append_vec(&mut v, &trim_vec(&chars_or_unknown(&product_family)));
        append_vec(&mut v, &chars_of(")"));
        text_from(&v)
    }
}

fn keyed_value_vec(contents: &Vec<char>, key: &Vec<char>) -> (r: Vec<char>)
    ensures
        r@ == keyed_value(contents@, key@),
{
    let ls = lines_vec(contents);
    let line = match find_line(&ls, key, false) {
        Some(l) => l,
        None => chars_of("Unknown"),
    };
    match second_field_vec(&line, '=') {
        Some(f) => f,
        None => chars_of("Unknown"),
    }
}

/// The tag of a `lspci` line: integrated for a VGA controller, discrete for a discrete
/// graphics controller.
pub open spec fn gpu_tag(line: Seq<char>) -> Seq<char> {
    if contains(line, "VGA compatible controller"@) {
        "[Integrated]"@
    } else if contains(line, "Discrete Graphics Controller"@) {
        "[Discrete]"@
    } else {
        seq![]
    }
}

/// A GPU name with its vendor's name shortened; "Unknown" for other vendors.
pub open spec fn gpu_vendor(name: Seq<char>) -> Seq<char> {
    if contains(name, "NVIDIA Corporation"@) {
        replace_all(name, "NVIDIA Corporation"@, "NVIDIA"@)
    } else if contains(name, "Advanced Micro Devices, Inc. [AMD/ATI]"@) {
        replace_all(name, "Advanced Micro Devices, Inc. [AMD/ATI]"@, "AMD"@)
    } else if contains(name, "Intel Corporation"@) {
        replace_all(name, "Intel Corporation"@, "Intel"@)
    } else {
        "Unknown"@
    }
}

/// The device description of a `lspci` line without its revision, trimmed.
pub open spec fn gpu_model(info: Seq<char>) -> Seq<char> {
    match split_once(info, " (rev"@) {
        Some((name, _)) => trim(name),
        None => trim(info),
    }
}

pub open spec fn is_gpu_line(line: Seq<char>) -> bool {
    contains(line, "VGA"@) || contains(line, "3D controller"@)
}

/// One entry per graphics line of `lspci` that has a `: ` after its bus address.
pub open spec fn gpu_entries(ls: Seq<Seq<char>>) -> Seq<Seq<char>>
    decreases ls.len(),
{
    if ls.len() == 0 {
        seq![]
    } else {
        let line = ls[0];
        let rest = gpu_entries(ls.drop_first());
        if is_gpu_line(line) {
            match split_once(line, ": "@) {
                Some((_, info)) => seq![gpu_vendor(gpu_model(info)) + " "@ + gpu_tag(line)] + rest,
                None => rest,
            }
        } else {
            rest
        }
    }
}

/// The GPU line: the graphics devices that `lspci` lists, separated by `| `.
pub open spec fn gpu_line(lspci: Seq<char>) -> Seq<char> {
    join(gpu_entries(lines(lspci)), "| "@)
}

/// What a `/proc/<pid>/status` file gives as the parent process: the trimmed text after the
/// `:` of its first `PPid:` line.
pub open spec fn parent_pid_of(status: Seq<char>) -> Option<Seq<char>> {
    match first_starting_with(lines(status), "PPid:"@) {
        None => None,
        Some(line) => match split_once(line, ":"@) {
            Some((_, v)) => Some(trim(v)),
            None => None,
        },
    }
}

/// The uppercase mapping of a character (`char::to_uppercase`), one or more characters.
pub uninterp spec fn uppercase_of(c: char) -> Seq<char>;

/// `s` with its first character in upper case.
pub open spec fn capitalized(s: Seq<char>) -> Seq<char> {
    if s.len() == 0 {
        seq![]
    } else {
        uppercase_of(s[0]) + s.drop_first()
    }
}

/// A terminal's command name without surrounding whitespace and without what follows
/// `-agent` or else `-gui`.
pub open spec fn terminal_base(comm: Seq<char>) -> Seq<char> {
    let t = trim(comm);
    match split_once(t, "-agent"@) {
        Some((name, _)) => name,
        None => match split_once(t, "-gui"@) {
            Some((name, _)) => name,
            None => t,
        },
    }
}

/// The terminal: "Unknown" when the shell's parent is unknown or is process 0 (no user
/// program), else its command name, capitalized.
pub open spec fn terminal_name(pid: Option<Seq<char>>, comm: Option<Seq<char>>) -> Seq<char> {
    match pid {
        None => "Unknown"@,
        Some(p) => if p == "Unknown"@ || p == "0"@ {
            "Unknown"@
        } else {
            capitalized(terminal_base(or_unknown(comm)))
        },
    }
}

/// `char::to_uppercase`, collected into a string. Claims only that the result is
/// `uppercase_of` the character.
#[verifier::external_body]
fn uppercase(c: char) -> (r: String)
    ensures
        r@ == uppercase_of(c),
{
    c.to_uppercase().to_string()
}

fn gpu_vendor_vec(name: &Vec<char>) -> (r: Vec<char>)
    ensures
        r@ == gpu_vendor(name@),
{
    let nvidia = chars_of("NVIDIA Corporation");
    let amd = chars_of("Advanced Micro Devices, Inc. [AMD/ATI]");
    let intel = chars_of("Intel Corporation");
    if contains_vec(name, &nvidia) {
        replace_vec(name, &nvidia, &chars_of("NVIDIA"))
    } else if contains_vec(name, &amd) {
        replace_vec(name, &amd, &chars_of("AMD"))
    } else if contains_vec(name, &intel) {
        replace_vec(name, &intel, &chars_of("Intel"))
    } else {
        chars_of("Unknown")
    }
}

fn gpu_tag_vec(line: &Vec<char>) -> (r: Vec<char>)
    ensures
        r@ == gpu_tag(line@),
{
    if contains_vec(line, &chars_of("VGA compatible controller")) {
        chars_of("[Integrated]")
    } else if contains_vec(line, &chars_of("Discrete Graphics Controller")) {
        chars_of("[Discrete]")
    } else {
        Vec::new()
    }
}

impl SystemInfo {
    /// The GPU line, from what `lspci` printed.
    pub fn read_gpu(lspci: &str) -> (r: String)
        ensures
            r@ == gpu_line(lspci@),
    {
        let ls = lines_vec(&chars_of(lspci));
        let ghost all = views(ls@);
        let mut entries: Vec<Vec<char>> = Vec::new();
        let mut i: usize = 0;
        assert(all.skip(0) == all);
        assert(views(entries@) + gpu_entries(all) == gpu_entries(all));
        while i < ls.len()
            invariant
                i <= ls.len(),
                all == views(ls@),
                gpu_entries(all) == views(entries@) + gpu_entries(all.skip(i as int)),
            decreases ls.len() - i,
        {
            let ghost before = views(entries@);
            let line = &ls[i];
            assert(all.skip(i as int)[0] == line@);
            assert(all.skip(i as int).drop_first() == all.skip(i + 1));
            if contains_vec(line, &chars_of("VGA")) || contains_vec(line, &chars_of("3D controller")) {
                match split_once_vec(line, &chars_of(": ")) {
                    Some((_, info)) => {
                        let model = match split_once_vec(&info, &chars_of(" (rev")) {
                            Some((name, _)) => trim_vec(&name),
                            None => trim_vec(&info),
                        };
                        let mut entry = gpu_vendor_vec(&model);
                        append_vec(&mut entry, &chars_of(" "));
                        append_vec(&mut entry, &gpu_tag_vec(line));
                        entries.push(entry);
                        assert(views(entries@) == before + seq![entry@]);
                    },
                    None => {},
                }
            }
            i += 1;
        }
        assert(all.skip(ls.len() as int).len() == 0);
        assert(views(entries@) + seq![] == views(entries@));
        text_from(&join_vec(&entries, &chars_of("| ")))
    }

    /// The parent process named in the contents of a `/proc/<pid>/status` file (`None` when
    /// it could not be read).
    pub fn parent_pid(status: Option<String>) -> (r: Option<String>)
        ensures
            option_view(r) == match option_view(status) {
                Some(s) => parent_pid_of(s),
                None => None,
            },
    {
        let s = match &status {
            Some(s) => chars_of(s.as_str()),
            None => return None,
        };
        let ls = lines_vec(&s);
        match find_line(&ls, &chars_of("PPid:"), false) {
            None => None,
            Some(line) => match split_once_vec(&line, &chars_of(":")) {
                Some((_, v)) => Some(text_from(&trim_vec(&v))),
                None => None,
            },
        }
    }

    /// The terminal, from the parent of the shell's parent (`terminal_pid`) and the contents
    /// of its `/proc/<pid>/comm`.
    pub fn read_terminal(terminal_pid: Option<String>, comm: Option<String>) -> (r: String)
        ensures
            r@ == terminal_name(option_view(terminal_pid), option_view(comm)),
    {
        match &terminal_pid {
            None => return "Unknown".to_owned(),
            Some(p) => {
                if crate::text::str_eq(p.as_str(), "Unknown") || crate::text::str_eq(p.as_str(), "0") {
                    return "Unknown".to_owned();
                }
            },
        }
        let t = trim_vec(&chars_or_unknown(&comm));
        let base = match split_once_vec(&t, &chars_of("-agent")) {
            Some((name, _)) => name,
            None => match split_once_vec(&t, &chars_of("-gui")) {
                Some((name, _)) => name,
                None => t,
            },
        };
        if base.len() == 0 {
            return String::new();
        }
        let mut r = uppercase(base[0]);
        let rest = crate::text::slice(&base, 1, base.len());
        r.append(text_from(&rest).as_str());
        assert(base@.drop_first() == rest@);
        r
    }
}

/// How many lines a program printed, as `BufRead::lines` counts them: one per line feed,
/// and one more for a last line without one.
pub open spec fn line_count(output: Seq<u8>) -> nat {
    newline_count(output) + if output.len() > 0 && output.last() != 10 {
        1nat
    } else {
        0nat
    }
}

pub open spec fn newline_count(output: Seq<u8>) -> nat
    decreases output.len(),
{
    if output.len() == 0 {
        0
    } else {
        newline_count(output.drop_last()) + if output.last() == 10 {
            1nat
        } else {
            0nat
        }
    }
}

/// The native package managers, tried in this order: the command and its argument that list
/// the installed packages one per line.
pub open spec fn native_managers() -> Seq<(Seq<char>, Seq<char>)> {
    seq![("pacman"@, "-Qq"@), ("dpkg"@, "--get-selections"@), ("rpm"@, "-qa"@)]
}

/// The first native package manager that could be run (by index), with its line count.
pub open spec fn native_choice(native: Seq<Option<u64>>) -> Option<(int, u64)> {
    if native.len() > 0 && native[0] is Some {
        Some((0, native[0]->0))
    } else if native.len() > 1 && native[1] is Some {
        Some((1, native[1]->0))
    } else if native.len() > 2 && native[2] is Some {
        Some((2, native[2]->0))
    } else {
        None
    }
}

/// `count (label)`, when the count is not zero.
pub open spec fn package_entry(count: nat, label: Seq<char>) -> Seq<Seq<char>> {
    if count > 0 {
        seq![decimal(count) + " ("@ + label + ")"@]
    } else {
        seq![]
    }
}

pub open spec fn count_or_zero(c: Option<u64>) -> nat {
    match c {
        Some(n) => n as nat,
        None => 0,
    }
}

/// The packages line: the native packages (with the manager's name), the system and the user
/// flatpaks, and the snaps (whose listing has a header line), each when there are any.
pub open spec fn packages_line(
    native: Seq<Option<u64>>,
    flatpak_system: Option<u64>,
    flatpak_user: Option<u64>,
    snap: Option<u64>,
) -> Seq<char> {
    let native_entry = match native_choice(native) {
        Some((i, n)) => package_entry(n as nat, native_managers()[i].0),
        None => seq![],
    };
    let snaps = match snap {
        Some(n) => if n > 0 {
            (n - 1) as nat
        } else {
            0nat
        },
        None => 0nat,
    };
    join(
        native_entry + package_entry(count_or_zero(flatpak_system), "flatpak-system"@)
            + package_entry(count_or_zero(flatpak_user), "flatpak-user"@) + package_entry(
            snaps,
            "snap"@,
        ),
        ", "@,
    )
}

/// What the fetch reads of one entry of `/sys/class/power_supply`: its `type`, `model_name`,
/// `capacity` and `status` files (`None` for one that could not be read).
pub struct BatteryReading {
    pub kind: Option<String>,
    pub model_name: Option<String>,
    pub capacity: Option<String>,
    pub status: Option<String>,
}

/// A power supply whose `type` file mentions "Battery" (an unreadable one does not).
pub open spec fn battery_kind(kind: Option<Seq<char>>) -> bool {
    contains(
        match kind {
            Some(k) => k,
            None => seq![],
        },
        "Battery"@,
    )
}

pub open spec fn is_battery(b: BatteryReading) -> bool {
    battery_kind(option_view(b.kind))
}

/// The charge in percent: the capacity file read as a number, or 0.
pub open spec fn battery_capacity(b: BatteryReading) -> nat {
    match parse_u64(trim(or_unknown(option_view(b.capacity)))) {
        Some(n) => n as nat,
        None => 0,
    }
}

/// `(model): charge% [status]`
pub open spec fn battery_entry(b: BatteryReading) -> Seq<char> {
    "("@ + trim(or_unknown(option_view(b.model_name))) + "): "@ + decimal(battery_capacity(b))
        + "% ["@ + trim(or_unknown(option_view(b.status))) + "]"@
}

/// One entry per power supply that is a battery, in the order read.
pub open spec fn battery_entries(bs: Seq<BatteryReading>) -> Seq<Seq<char>>
    decreases bs.len(),
{
    if bs.len() == 0 {
        seq![]
    } else {
        (if is_battery(bs[0]) {
            seq![battery_entry(bs[0])]
        } else {
            seq![]
        }) + battery_entries(bs.drop_first())
    }
}

/// The battery line: the batteries separated by `, `, or "No battery".
pub open spec fn battery_line(bs: Seq<BatteryReading>) -> Seq<char> {
    if battery_entries(bs).len() == 0 {
        "No battery"@
    } else {
        join(battery_entries(bs), ", "@)
    }
}

/// The address and the interface of the default route, from the first line of
/// `ip route get 1` that has ` src `: `(interface): address`; `(none): offline` without one.
pub open spec fn ip_line(route: Option<Seq<char>>) -> Seq<char> {
    let found = match route {
        Some(o) => match first_containing(lines(o), " src "@) {
            Some(line) => split_once(line, " src "@),
            None => None,
        },
        None => None,
    };
    match found {
        Some((left, right)) => {
            let iface = if words(left).len() > 0 {
                words(left).last()
            } else {
                "none"@
            };
            let ip = if words(right).len() > 0 {
                words(right)[0]
            } else {
                "offline"@
            };
            "("@ + iface + "): "@ + ip
        },
        None => "(none): offline"@,
    }
}

pub open spec fn triples_view(v: Seq<(String, String)>) -> Seq<(Seq<char>, Seq<char>)> {
    v.map_values(|p: (String, String)| (p.0@, p.1@))
}

fn battery_entry_vec(b: &BatteryReading) -> (r: Vec<char>)
    ensures
        r@ == battery_entry(*b),
{
    let cap = match parse_u64_vec(&trim_vec(&chars_or_unknown(&b.capacity))) {
        Some(n) => n,
        None => 0,
    };
    let mut v = chars_of("(");
    append_vec(&mut v, &trim_vec(&chars_or_unknown(&b.model_name)));
    append_vec(&mut v, &chars_of("): "));
    append_vec(&mut v, &decimal_vec(cap));
    append_vec(&mut v, &chars_of("% ["));
    append_vec(&mut v, &trim_vec(&chars_or_unknown(&b.status)));
    append_vec(&mut v, &chars_of("]"));
    v
}

fn package_entry_push(entries: &mut Vec<Vec<char>>, count: u64, label: &str)
    ensures
        views(final(entries)@) == views(old(entries)@) + package_entry(count as nat, label@),
        count > 0 ==> views(final(entries)@) == views(old(entries)@).push(
            decimal(count as nat) + " ("@ + label@ + ")"@,
        ),
        count == 0 ==> views(final(entries)@) == views(old(entries)@),
{
    if count > 0 {
        let mut v = decimal_vec(count);
        append_vec(&mut v, &chars_of(" ("));
        append_vec(&mut v, &chars_of(label));
        append_vec(&mut v, &chars_of(")"));
        let ghost before = views(entries@);
        entries.push(v);
        assert(views(entries@) == before + seq![v@]);
    } else {
        assert(views(entries@) == views(entries@) + Seq::<Seq<char>>::empty());
    }
}

impl SystemInfo {
    /// How many lines a program printed (see `line_count`).
    pub fn count_lines(output: &[u8]) -> (r: u64)
        ensures
            r == line_count(output@),
    {
        let mut n: u64 = 0;
        let mut i: usize = 0;
        while i < output.len()
            invariant
                i <= output.len(),
                n == newline_count(output@.take(i as int)),
                n <= i,
            decreases output.len() - i,
        {
            assert(output@.take(i + 1).drop_last() == output@.take(i as int));
            if output[i] == 10 {
                n += 1;
            }
            i += 1;
        }
        assert(output@.take(output.len() as int) == output@);
        proof {
            if output.len() > 0 {
                lemma_newline_count_bound(output@.drop_last());
            }
        }
        if output.len() > 0 && output[output.len() - 1] != 10 {
            n + 1
        } else {
            n
        }
    }

    /// The native package managers, in the order in which they are tried (see
    /// `native_managers`).
    pub fn native_package_commands() -> (r: Vec<(String, String)>)
        ensures
            triples_view(r@) == native_managers(),
    {
        let mut r: Vec<(String, String)> = Vec::new();
        r.push(("pacman".to_owned(), "-Qq".to_owned()));
        r.push(("dpkg".to_owned(), "--get-selections".to_owned()));
        r.push(("rpm".to_owned(), "-qa".to_owned()));
        assert(triples_view(r@) =~= native_managers());
        r
    }

    /// The packages line, from the line counts of the native managers that could be run
    /// (`None` for one that could not, in the order of `native_package_commands`), of
    /// `flatpak list --system`, of `flatpak list --user` and of `snap list`.
    pub fn read_packages(
        native: &Vec<Option<u64>>,
        flatpak_system: Option<u64>,
        flatpak_user: Option<u64>,
        snap: Option<u64>,
    ) -> (r: String)
        ensures
            r@ == packages_line(native@, flatpak_system, flatpak_user, snap),
    {
        let mut entries: Vec<Vec<char>> = Vec::new();
        let managers = Self::native_package_commands();
        let mut i: usize = 0;
        let mut chosen: Option<(usize, u64)> = None;
        while i < native.len() && i < 3 && chosen.is_none()
            invariant
                i <= 3,
                i <= native.len(),
                chosen is None ==> forall|j: int| 0 <= j < i ==> native@[j] is None,
                chosen matches Some((k, n)) ==> k < 3 && k < native.len() && native@[k as int]
                    == Some(n) && forall|j: int| 0 <= j < k ==> native@[j] is None,
            decreases 3 - i,
        {
            match native[i] {
                Some(n) => {
                    chosen = Some((i, n));
                },
                None => {},
            }
            i += 1;
        }
        assert(match chosen {
            Some((k, n)) => native_choice(native@) == Some((k as int, n)),
            None => native_choice(native@) is None,
        });
        match chosen {
            Some((k, n)) => {
                assert(native_managers().len() == 3);
                assert(managers@.len() == 3);
                assert(triples_view(managers@)[k as int] == (managers@[k as int].0@, managers@[k as int].1@));
                package_entry_push(&mut entries, n, managers[k].0.as_str());
            },
            None => {},
        }
        let ghost native_part = views(entries@);
        package_entry_push(
            &mut entries,
            match flatpak_system {
                Some(n) => n,
                None => 0,
            },
            "flatpak-system",
        );
        package_entry_push(
            &mut entries,
            match flatpak_user {
                Some(n) => n,
                None => 0,
            },
            "flatpak-user",
        );
        let snaps = match snap {
            Some(n) => if n > 0 {
                n - 1
            } else {
                0
            },
            None => 0,
        };
        package_entry_push(&mut entries, snaps, "snap");
        text_from(&join_vec(&entries, &chars_of(", ")))
    }

    /// Whether a power supply with this `type` file is a battery, whose other files are then
    /// worth reading.
    pub fn is_battery_kind(kind: &Option<String>) -> (r: bool)
        ensures
            r == battery_kind(option_view(*kind)),
    {
        let k = match kind {
            Some(k) => chars_of(k.as_str()),
            None => Vec::new(),
        };
        contains_vec(&k, &chars_of("Battery"))
    }

    /// The battery line, from the power supplies read (see `battery_line`).
    pub fn read_battery(supplies: &Vec<BatteryReading>) -> (r: String)
        ensures
            r@ == battery_line(supplies@),
    {
        let mut entries: Vec<Vec<char>> = Vec::new();
        let mut i: usize = 0;
        assert(supplies@.skip(0) == supplies@);
        assert(views(entries@) + battery_entries(supplies@) == battery_entries(supplies@));
        while i < supplies.len()
            invariant
                i <= supplies.len(),
                battery_entries(supplies@) == views(entries@) + battery_entries(
                    supplies@.skip(i as int),
                ),
            decreases supplies.len() - i,
        {
            let b = &supplies[i];
            assert(supplies@.skip(i as int)[0] == *b);
            assert(supplies@.skip(i as int).drop_first() == supplies@.skip(i + 1));
            let ghost before = views(entries@);
            let kind = match &b.kind {
                Some(k) => chars_of(k.as_str()),
                None => Vec::new(),
            };
            if contains_vec(&kind, &chars_of("Battery")) {
                entries.push(battery_entry_vec(b));
                assert(views(entries@) == before + seq![battery_entry(*b)]);
            } else {
                assert(before + Seq::<Seq<char>>::empty() == before);
            }
            i += 1;
        }
        assert(supplies@.skip(supplies.len() as int).len() == 0);
        assert(views(entries@) + seq![] == views(entries@));
        if entries.len() == 0 {
            "No battery".to_owned()
        } else {
            text_from(&join_vec(&entries, &chars_of(", ")))
        }
    }

    /// The address line, from what `ip route get 1` printed (`None` when it could not be run).
    pub fn read_ip(route: Option<String>) -> (r: String)
        ensures
            r@ == ip_line(option_view(route)),
    {
        let found = match &route {
            Some(o) => {
                let ls = lines_vec(&chars_of(o.as_str()));
                match find_line(&ls, &chars_of(" src "), true) {
                    Some(line) => split_once_vec(&line, &chars_of(" src ")),
                    None => None,
                }
            },
            None => None,
        };
        match found {
            Some((left, right)) => {
                let lw = words_vec(&left);
                let rw = words_vec(&right);
                let iface = if lw.len() > 0 {
                    clone_last(&lw)
                } else {
                    chars_of("none")
                };
                let ip = if rw.len() > 0 {
                    crate::text::clone_vec(&rw[0])
                } else {
                    chars_of("offline")
                };
                let mut v = chars_of("(");
                append_vec(&mut v, &iface);
                append_vec(&mut v, &chars_of("): "));
                append_vec(&mut v, &ip);
                text_from(&v)
            },
            None => "(none): offline".to_owned(),
        }
    }
}

proof fn lemma_newline_count_bound(s: Seq<u8>)
    ensures
        newline_count(s) <= s.len(),
    decreases s.len(),
{
    if s.len() > 0 {
        lemma_newline_count_bound(s.drop_last());
    }
}

fn clone_last(ws: &Vec<Vec<char>>) -> (r: Vec<char>)
    requires
        ws.len() > 0,
    ensures
        r@ == views(ws@).last(),
{
    crate::text::clone_vec(&ws[ws.len() - 1])
}

/// The line counts that the packages line is made of (see `read_packages`).
pub struct PackageCounts {
    pub native: Vec<Option<u64>>,
    pub flatpak_system: Option<u64>,
    pub flatpak_user: Option<u64>,
    pub snap: Option<u64>,
}

/// What the fetch reads from the system, as read: environment variables and files (`None`
/// when unset or unreadable), program outputs, and the lines that are measured in floating
/// point (memory, swap, disk, CPU clock), already formatted.
pub struct SystemSources {
    /// `$USER`
    pub user: Option<String>,
    /// `/etc/hostname`
    pub hostname: Option<String>,
    /// `/etc/os-release`
    pub os_release: Option<String>,
    /// `/proc/sys/kernel/osrelease`
    pub kernel_release: Option<String>,
    /// The whole seconds since boot (see `uptime_field`).
    pub uptime_seconds: u64,
    /// `/proc/cpuinfo`
    pub cpuinfo: Option<String>,
    /// The maximal CPU clock in GHz, formatted with two decimals.
    pub cpu_ghz: String,
    /// The memory line.
    pub memory: String,
    /// `$SHELL`
    pub shell: Option<String>,
    pub desktop_environment: DesktopEnvironment,
    /// The disk line.
    pub disk: String,
    /// What `lspci` printed.
    pub lspci: String,
    /// The parent of the shell's parent process (see `parent_pid`).
    pub terminal_pid: Option<String>,
    /// `/proc/<terminal_pid>/comm`
    pub terminal_comm: Option<String>,
    /// `$LANG`
    pub locale: Option<String>,
    pub packages: PackageCounts,
    /// `/sys/class/dmi/id/product_name`
    pub product_name: Option<String>,
    /// `/sys/class/dmi/id/product_family`
    pub product_family: Option<String>,
    /// The swap line.
    pub swap: String,
    /// The entries of `/sys/class/power_supply`.
    pub batteries: Vec<BatteryReading>,
    /// What `ip route get 1` printed.
    pub ip_route: Option<String>,
}

/// The lines that the fetch shows about the system, the desktop's among them.
pub open spec fn info_lines(i: SystemInfo) -> Seq<Seq<char>> {
    seq![
        i.user@ + "@"@ + i.hostname@,
        "-----------"@,
        "OS: "@ + i.os@,
        "Host: "@ + i.host@,
        "Kernel: "@ + i.kernel@,
        "Uptime: "@ + i.uptime@,
        "CPU: "@ + i.cpu@,
        "Memory: "@ + i.memory@,
        "Swap: "@ + i.swap@,
        "Shell: "@ + i.shell@,
    ] + desktop_lines(i.desktop_environment) + seq![
        "Disk: "@ + i.disk@,
        "GPU: "@ + i.gpu@,
        "Terminal: "@ + i.terminal@,
        "Battery "@ + i.battery@,
        "Locale: "@ + i.locale@,
        "Packages: "@ + i.packages@,
        "Local IP "@ + i.ip@,
    ]
}

fn labelled(label: &str, value: &String) -> (r: String)
    ensures
        r@ == label@ + value@,
{
    let mut r = label.to_owned();
    r.append(value.as_str());
    r
}

impl SystemInfo {
    /// Everything the fetch shows, worked out from what was read.
    pub fn new(s: SystemSources) -> (r: SystemInfo)
        ensures
            r.user@ == trim(or_unknown(option_view(s.user))),
            r.hostname@ == trim(or_unknown(option_view(s.hostname))),
            r.os@ == os_pretty_name(option_view(s.os_release)),
            r.kernel@ == "Linux "@ + trim(or_unknown(option_view(s.kernel_release))),
            r.uptime@ == uptime_line(s.uptime_seconds),
            r.cpu@ == cpu_line(option_view(s.cpuinfo), s.cpu_ghz@),
            r.memory == s.memory,
            r.shell@ == after_last(or_unknown(option_view(s.shell)), '/'),
            r.desktop_environment == s.desktop_environment,
            r.disk == s.disk,
            r.gpu@ == gpu_line(s.lspci@),
            r.terminal@ == terminal_name(option_view(s.terminal_pid), option_view(s.terminal_comm)),
            r.locale@ == or_unknown(option_view(s.locale)),
            r.packages@ == packages_line(
                s.packages.native@,
                s.packages.flatpak_system,
                s.packages.flatpak_user,
                s.packages.snap,
            ),
            r.host@ == host_line(option_view(s.product_name), option_view(s.product_family)),
            r.swap == s.swap,
            r.battery@ == battery_line(s.batteries@),
            r.ip@ == ip_line(option_view(s.ip_route)),
    {
        let user = Self::read_user(s.user);
        let hostname = Self::read_hostname(s.hostname);
        let os = Self::read_os(s.os_release);
        let kernel = Self::read_kernel(s.kernel_release);
        let uptime = Self::read_uptime(s.uptime_seconds);
        let cpu = Self::read_cpu(s.cpuinfo, s.cpu_ghz.as_str());
        let shell = Self::read_shell(s.shell);
        let gpu = Self::read_gpu(s.lspci.as_str());
        let terminal = Self::read_terminal(s.terminal_pid, s.terminal_comm);
        let locale = Self::read_locale(s.locale);
        let packages = Self::read_packages(
            &s.packages.native,
            s.packages.flatpak_system,
            s.packages.flatpak_user,
            s.packages.snap,
        );
        let host = Self::read_host(s.product_name, s.product_family);
        let battery = Self::read_battery(&s.batteries);
        let ip = Self::read_ip(s.ip_route);
        SystemInfo {
            user,
            hostname,
            os,
            kernel,
            uptime,
            cpu,
            memory: s.memory,
            shell,
            desktop_environment: s.desktop_environment,
            disk: s.disk,
            gpu,
            terminal,
            locale,
            packages,
            host,
            swap: s.swap,
            battery,
            ip,
        }
    }

    /// The lines that the fetch shows (see `info_lines`).
    pub fn to_lines(&self) -> (r: Vec<String>)
        ensures
            string_views(r@) == info_lines(*self),
    {
        let mut lines: Vec<String> = Vec::new();
        let mut first = self.user.clone();
        first.append("@");
        first.append(self.hostname.as_str());
        lines.push(first);
        lines.push("-----------".to_owned());
        lines.push(labelled("OS: ", &self.os));
        lines.push(labelled("Host: ", &self.host));
        lines.push(labelled("Kernel: ", &self.kernel));
        lines.push(labelled("Uptime: ", &self.uptime));
        lines.push(labelled("CPU: ", &self.cpu));
        lines.push(labelled("Memory: ", &self.memory));
        lines.push(labelled("Swap: ", &self.swap));
        lines.push(labelled("Shell: ", &self.shell));
        let ghost head = string_views(lines@);
        assert(head =~= info_lines(*self).take(10));
        let de = self.desktop_environment.to_lines();
        let mut i: usize = 0;
        while i < de.len()
            invariant
                i <= de.len(),
                string_views(lines@) == head + string_views(de@).take(i as int),
            decreases de.len() - i,
        {
            let ghost before = string_views(lines@);
            lines.push(de[i].clone());
            assert(string_views(lines@) =~= before.push(de@[i as int]@));
            assert(string_views(de@).take(i + 1) =~= string_views(de@).take(i as int).push(de@[i as int]@));
            i += 1;
        }
        assert(string_views(de@).take(de.len() as int) == string_views(de@));
        let ghost mid = string_views(lines@);
        assert(mid =~= info_lines(*self).take(17));
        lines.push(labelled("Disk: ", &self.disk));
        lines.push(labelled("GPU: ", &self.gpu));
        lines.push(labelled("Terminal: ", &self.terminal));
        lines.push(labelled("Battery ", &self.battery));
        lines.push(labelled("Locale: ", &self.locale));
        lines.push(labelled("Packages: ", &self.packages));
        lines.push(labelled("Local IP ", &self.ip));
        assert(string_views(lines@) =~= mid + seq![
            "Disk: "@ + self.disk@,
            "GPU: "@ + self.gpu@,
            "Terminal: "@ + self.terminal@,
            "Battery "@ + self.battery@,
            "Locale: "@ + self.locale@,
            "Packages: "@ + self.packages@,
            "Local IP "@ + self.ip@,
        ]);
        assert(string_views(lines@) =~= info_lines(*self));
        lines
    }
}

proof fn lemma_no_battery_entries(bs: Seq<BatteryReading>)
    ensures
        battery_entries(bs).len() == 0 <==> forall|i: int| 0 <= i < bs.len() ==> !is_battery(
            #[trigger] bs[i],
        ),
    decreases bs.len(),
{
    if bs.len() > 0 {
        lemma_no_battery_entries(bs.drop_first());
        assert forall|i: int| 1 <= i < bs.len() implies bs[i] == bs.drop_first()[i - 1] by {}
    }
}

/// The battery line says "No battery" exactly when no power supply is a battery; otherwise
/// it lists the batteries, each in parentheses.
pub proof fn law_no_battery(bs: Seq<BatteryReading>)
    ensures
        (forall|i: int| 0 <= i < bs.len() ==> !is_battery(#[trigger] bs[i])) ==> battery_line(bs)
            == "No battery"@,
        (exists|i: int| 0 <= i < bs.len() && is_battery(#[trigger] bs[i])) ==> battery_line(bs)
            == join(battery_entries(bs), ", "@) && battery_entries(bs).len() > 0,
{
    lemma_no_battery_entries(bs);
}

/// The fetch shows 24 lines: ten about the system, the desktop's seven, then seven more.
pub proof fn law_info_lines_hold_desktop_lines(i: SystemInfo)
    ensures
        info_lines(i).len() == 24,
        info_lines(i).subrange(10, 17) == desktop_lines(i.desktop_environment),
{
    assert(info_lines(i).subrange(10, 17) =~= desktop_lines(i.desktop_environment));
}

/// The CPU line names the model, then the number of all lines of `/proc/cpuinfo` that start
/// with "processor" (in every block, not only the first), then the clock.
pub proof fn law_cpu_line(cpuinfo: Seq<char>, ghz: Seq<char>)
    ensures
        cpu_line(Some(cpuinfo), ghz) == cpu_model(cpuinfo) + " ("@ + decimal(
            count_starting_with(lines(cpuinfo), "processor"@),
        ) + ") @ "@ + ghz + " GHz"@,
{
}

/// The cores counted in `/proc/cpuinfo` add up over its parts: where the first part ends with
/// a line break, the count of "processor" lines of the whole is the sum of the counts of the
/// parts, so each processor block counts.
pub proof fn law_cpu_cores_add_up(first: Seq<char>, rest: Seq<char>)
    requires
        first.len() > 0,
        first.last() == '\n',
    ensures
        count_starting_with(lines(first + rest), "processor"@) == count_starting_with(
            lines(first),
            "processor"@,
        ) + count_starting_with(lines(rest), "processor"@),
{
    law_lines_of_concatenation(first, rest);
    law_count_starting_with_append(lines(first), lines(rest), "processor"@);
}

/// Every package count that is not zero is listed as `count (label)`; a zero count is left out.
pub proof fn law_package_entry(count: nat, label: Seq<char>)
    ensures
        count > 0 ==> package_entry(count, label) == seq![decimal(count) + " ("@ + label + ")"@],
        count == 0 ==> package_entry(count, label).len() == 0,
        package_entry(count, label).len() == 0 <==> count == 0,
{
}

/// With pacman's count and some of each other kind, the packages line lists all four, in
/// order: pacman, the system flatpaks, the user flatpaks, then the snaps (less the header line
/// of `snap list`).
#[verifier::rlimit(30)]
pub proof fn law_packages_all_listed(pacman: u64, system: u64, user: u64, snap: u64)
    requires
        pacman > 0,
        system > 0,
        user > 0,
        snap > 1,
    ensures
        packages_line(seq![Some(pacman)], Some(system), Some(user), Some(snap)) == decimal(
            pacman as nat,
        ) + " (pacman)"@ + ", "@ + decimal(system as nat) + " (flatpak-system)"@ + ", "@
            + decimal(user as nat) + " (flatpak-user)"@ + ", "@ + decimal((snap - 1) as nat)
            + " (snap)"@,
{
    let d0 = decimal(pacman as nat);
    let d1 = decimal(system as nat);
    let d2 = decimal(user as nat);
    let d3 = decimal((snap - 1) as nat);
    reveal_strlit(" (");
    reveal_strlit(")");
    reveal_strlit("pacman");
    reveal_strlit(" (pacman)");
    assert(" (pacman)"@ =~= " ("@ + "pacman"@ + ")"@);
    reveal_strlit("flatpak-system");
    reveal_strlit(" (flatpak-system)");
    assert(" (flatpak-system)"@ =~= " ("@ + "flatpak-system"@ + ")"@);
    reveal_strlit("flatpak-user");
    reveal_strlit(" (flatpak-user)");
    assert(" (flatpak-user)"@ =~= " ("@ + "flatpak-user"@ + ")"@);
    reveal_strlit("snap");
    reveal_strlit(" (snap)");
    assert(" (snap)"@ =~= " ("@ + "snap"@ + ")"@);
    lemma_entry_text(d0, "pacman"@, " (pacman)"@);
    lemma_entry_text(d1, "flatpak-system"@, " (flatpak-system)"@);
    lemma_entry_text(d2, "flatpak-user"@, " (flatpak-user)"@);
    lemma_entry_text(d3, "snap"@, " (snap)"@);
    let e0 = d0 + " (pacman)"@;
    let e1 = d1 + " (flatpak-system)"@;
    let e2 = d2 + " (flatpak-user)"@;
    let e3 = d3 + " (snap)"@;
    let es = seq![e0] + seq![e1] + seq![e2] + seq![e3];
    assert(native_choice(seq![Some(pacman)]) == Some((0int, pacman)));
    assert(native_managers()[0].0 == "pacman"@);
    assert(es =~= seq![e0, e1, e2, e3]);
    assert(es.drop_last() =~= seq![e0, e1, e2]);
    assert(es.drop_last().drop_last() =~= seq![e0, e1]);
    assert(es.drop_last().drop_last().drop_last() =~= seq![e0]);
    assert(join(seq![e0], ", "@) == e0);
    assert(join(seq![e0, e1], ", "@) == e0 + ", "@ + e1);
    assert(join(seq![e0, e1, e2], ", "@) == e0 + ", "@ + e1 + ", "@ + e2);
    assert(join(es, ", "@) == e0 + ", "@ + e1 + ", "@ + e2 + ", "@ + e3);
    assert(join(es, ", "@) =~= d0 + " (pacman)"@ + ", "@ + d1 + " (flatpak-system)"@ + ", "@
        + d2 + " (flatpak-user)"@ + ", "@ + d3 + " (snap)"@);
}

/// `count (label)` written with the label's parentheses as one piece of text.
proof fn lemma_entry_text(count: Seq<char>, label: Seq<char>, framed: Seq<char>)
    requires
        framed == " ("@ + label + ")"@,
    ensures
        count + " ("@ + label + ")"@ == count + framed,
{
    assert(count + " ("@ + label + ")"@ =~= count + (" ("@ + label + ")"@));
}

/// A count of user flatpaks alone, however small but not zero, makes the whole packages line.
pub proof fn law_packages_single_count(user: u64)
    requires
        user > 0,
    ensures
        packages_line(seq![], None, Some(user), None) == decimal(user as nat) + " (flatpak-user)"@,
        packages_line(seq![None, None, None], Some(0), Some(user), Some(1)) == decimal(user as nat)
            + " (flatpak-user)"@,
{
    reveal_strlit(" (");
    reveal_strlit(")");
    reveal_strlit("flatpak-user");
    reveal_strlit(" (flatpak-user)");
    assert(" (flatpak-user)"@ =~= " ("@ + "flatpak-user"@ + ")"@);
    lemma_entry_text(decimal(user as nat), "flatpak-user"@, " (flatpak-user)"@);
    let e = decimal(user as nat) + " (flatpak-user)"@;
    assert(Seq::<Seq<char>>::empty() + Seq::<Seq<char>>::empty() + seq![e]
        + Seq::<Seq<char>>::empty() =~= seq![e]);
}

/// The uptime shows the whole hours since boot and the whole minutes after them: any seconds
/// beyond the last full minute are dropped, and the minutes stay below 60.
pub proof fn law_uptime_hours_and_minutes(hours: nat, mins: nat, secs: nat)
    requires
        mins < 60,
        secs < 60,
        hours * 3600 + mins * 60 + secs <= u64::MAX,
    ensures
        uptime_line((hours * 3600 + mins * 60 + secs) as u64) == decimal(hours) + " hours, "@
            + decimal(mins) + " mins"@,
{
    let t = hours * 3600 + mins * 60 + secs;
    vstd::arithmetic::div_mod::lemma_fundamental_div_mod_converse(
        t as int,
        60,
        (hours * 60 + mins) as int,
        secs as int,
    );
    vstd::arithmetic::div_mod::lemma_fundamental_div_mod_converse(
        (hours * 60 + mins) as int,
        60,
        hours as int,
        mins as int,
    );
}

/// The terminal is "Unknown" when the shell's parent is unknown or is process 0; otherwise a
/// command name without `-` is shown as it is, capitalized.
pub proof fn law_terminal_name(pid: Option<Seq<char>>, comm: Seq<char>)
    requires
        comm.len() > 0,
        forall|i: int| 0 <= i < comm.len() ==> comm[i] != '-',
        !crate::text::is_ws(comm[0]),
        !crate::text::is_ws(comm.last()),
    ensures
        terminal_name(None, Some(comm)) == "Unknown"@,
        terminal_name(Some("0"@), Some(comm)) == "Unknown"@,
        terminal_name(Some("Unknown"@), Some(comm)) == "Unknown"@,
        pid matches Some(p) && p != "0"@ && p != "Unknown"@ ==> terminal_name(pid, Some(comm))
            == uppercase_of(comm[0]) + comm.drop_first(),
{
    law_trim_set_exact(seq![], comm, seq![], CharSet::Whitespace);
    assert(Seq::<char>::empty() + comm + Seq::<char>::empty() =~= comm);
    reveal_strlit("-agent");
    reveal_strlit("-gui");
    lemma_no_dash_no_match(comm, "-agent"@);
    lemma_no_dash_no_match(comm, "-gui"@);
}

proof fn lemma_no_dash_no_match(s: Seq<char>, p: Seq<char>)
    requires
        p.len() > 0,
        p[0] == '-',
        forall|i: int| 0 <= i < s.len() ==> s[i] != '-',
    ensures
        !contains(s, p),
        split_once(s, p) is None,
{
    assert forall|i: int| !matches_at(s, p, i) by {
        if matches_at(s, p, i) {
            assert(s.subrange(i, i + p.len())[0] == s[i]);
        }
    }
    if crate::text::find(s, p) is Some {
        crate::text::lemma_find(s, p);
    }
}

/// A terminal whose command name is `name-agent...` (or `name-gui...`) is shown by its name
/// alone, capitalized.
pub proof fn law_terminal_drops_suffix(pid: Seq<char>, name: Seq<char>, rest: Seq<char>)
    requires
        pid != "0"@,
        pid != "Unknown"@,
        name.len() > 0,
        !crate::text::is_ws(name[0]),
        rest.len() == 0 || !crate::text::is_ws(rest.last()),
        forall|i: int| 0 <= i < name.len() ==> name[i] != '-',
        forall|i: int| 0 <= i < rest.len() ==> rest[i] != '-',
    ensures
        terminal_name(Some(pid), Some(name + "-agent"@ + rest)) == uppercase_of(name[0])
            + name.drop_first(),
        terminal_name(Some(pid), Some(name + "-gui"@ + rest)) == uppercase_of(name[0])
            + name.drop_first(),
{
    reveal_strlit("-agent");
    reveal_strlit("-gui");
    lemma_cut_at_first_dash(name, "-agent"@, rest, "-gui"@);
    lemma_cut_at_first_dash(name, "-gui"@, rest, "-agent"@);
}

#[verifier::rlimit(30)]
proof fn lemma_cut_at_first_dash(name: Seq<char>, p: Seq<char>, rest: Seq<char>, q: Seq<char>)
    requires
        name.len() > 0,
        !crate::text::is_ws(name[0]),
        rest.len() == 0 || !crate::text::is_ws(rest.last()),
        forall|i: int| 0 <= i < name.len() ==> name[i] != '-',
        forall|i: int| 0 <= i < rest.len() ==> rest[i] != '-',
        p == "-agent"@ || p == "-gui"@,
        q == "-agent"@ || q == "-gui"@,
        p != q,
    ensures
        terminal_base(name + p + rest) == name,
{
    reveal_strlit("-agent");
    reveal_strlit("-gui");
    let s = name + p + rest;
    let k = name.len() as int;
    assert(!crate::text::is_ws(s.last())) by {
        if rest.len() == 0 {
            assert(s.last() == p.last());
        } else {
            assert(s.last() == rest.last());
        }
    }
    assert(s[0] == name[0]);
    law_trim_set_exact(seq![], s, seq![], CharSet::Whitespace);
    assert(Seq::<char>::empty() + s + Seq::<char>::empty() =~= s);
    assert forall|i: int| 0 <= i < s.len() && s[i] == '-' implies i == k by {
        if i < k {
            assert(s[i] == name[i]);
        } else if i >= k + p.len() {
            assert(s[i] == rest[i - k - p.len()]);
        } else {
            assert(s[i] == p[i - k]);
        }
    }
    assert(s.subrange(k, k + p.len()) =~= p);
    assert(crate::text::first_match(s, p, k)) by {
        assert forall|j: int| 0 <= j < k implies !matches_at(s, p, j) by {
            if matches_at(s, p, j) {
                assert(s.subrange(j, j + p.len())[0] == s[j]);
            }
        }
    }
    lemma_first_match_unique(s, p, k);
    assert(s.take(k) =~= name);
    assert forall|j: int| !matches_at(s, q, j) by {
        if matches_at(s, q, j) {
            assert(s.subrange(j, j + q.len())[0] == s[j]);
            assert(j == k);
            assert(s.subrange(j, j + q.len())[1] == s[k + 1]);
            assert(s[k + 1] == p[1]);
        }
    }
    if crate::text::find(s, q) is Some {
        crate::text::lemma_find(s, q);
    }
}

/// The batteries are listed in the order read, each power supply's entry after those of the
/// ones before it; power supplies that are not batteries add nothing.
pub proof fn law_battery_entries_append(a: Seq<BatteryReading>, b: Seq<BatteryReading>)
    ensures
        battery_entries(a + b) == battery_entries(a) + battery_entries(b),
    decreases a.len(),
{
    if a.len() == 0 {
        assert(a + b =~= b);
        assert(battery_entries(a) + battery_entries(b) =~= battery_entries(b));
    } else {
        assert((a + b).drop_first() =~= a.drop_first() + b);
        assert((a + b)[0] == a[0]);
        law_battery_entries_append(a.drop_first(), b);
        let head = if is_battery(a[0]) {
            seq![battery_entry(a[0])]
        } else {
            Seq::<Seq<char>>::empty()
        };
        assert(head + (battery_entries(a.drop_first()) + battery_entries(b)) =~= head
            + battery_entries(a.drop_first()) + battery_entries(b));
    }
}

/// One battery is shown as `(model): charge% [status]`, its charge read from the capacity
/// file as a number; a capacity that cannot be read counts as 0%.
pub proof fn law_one_battery(b: BatteryReading, model: Seq<char>, charge: nat, status: Seq<char>)
    requires
        is_battery(b),
        option_view(b.model_name) == Some(model),
        option_view(b.status) == Some(status),
        charge <= u64::MAX,
    ensures
        option_view(b.capacity) == Some(decimal(charge)) ==> battery_line(seq![b]) == "("@ + trim(
            model,
        ) + "): "@ + decimal(charge) + "% ["@ + trim(status) + "]"@,
        b.capacity is None ==> battery_line(seq![b]) == "("@ + trim(model) + "): 0% ["@ + trim(
            status,
        ) + "]"@,
{
    law_decimal_round_trip(charge);
    assert(seq![b].drop_first() =~= Seq::<BatteryReading>::empty());
    let e = battery_entry(b);
    assert(seq![b][0] == b);
    assert(battery_entries(Seq::<BatteryReading>::empty()) == Seq::<Seq<char>>::empty());
    assert(seq![e] + Seq::<Seq<char>>::empty() =~= seq![e]);
    assert(battery_entries(seq![b]) =~= seq![e]);
    assert(join(seq![e], ", "@) == e);
    if b.capacity is None {
        reveal_strlit("Unknown");
        law_trim_set_exact(seq![], "Unknown"@, seq![], CharSet::Whitespace);
        assert(Seq::<char>::empty() + "Unknown"@ + Seq::<char>::empty() =~= "Unknown"@);
        assert(!crate::text::is_digit("Unknown"@[0]));
        assert(parse_u64("Unknown"@) is None);
        assert(battery_capacity(b) == 0);
        assert(decimal(0) =~= seq!['0']);
        reveal_strlit("): ");
        reveal_strlit("% [");
        reveal_strlit("): 0% [");
        assert("): "@ + decimal(0) + "% ["@ =~= "): 0% ["@);
        assert(e =~= "("@ + trim(model) + "): 0% ["@ + trim(status) + "]"@);
    }
}

/// `newline_count` adds up over a concatenation.
proof fn lemma_newline_count_append(a: Seq<u8>, b: Seq<u8>)
    ensures
        newline_count(a + b) == newline_count(a) + newline_count(b),
    decreases b.len(),
{
    if b.len() == 0 {
        assert(a + b =~= a);
    } else {
        assert((a + b).drop_last() =~= a + b.drop_last());
        lemma_newline_count_append(a, b.drop_last());
    }
}

/// Counting lines adds up over outputs cut after a line feed, and a line of bytes without a
/// line feed counts once, whether or not one follows it; an empty output has no line.
pub proof fn law_line_count(a: Seq<u8>, b: Seq<u8>, line: Seq<u8>)
    requires
        forall|i: int| 0 <= i < line.len() ==> line[i] != 10,
    ensures
        a.len() == 0 || a.last() == 10 ==> line_count(a + b) == line_count(a) + line_count(b),
        line_count(Seq::<u8>::empty()) == 0,
        line_count(line.push(10)) == 1,
        line.len() > 0 ==> line_count(line) == 1,
{
    lemma_newline_count_append(a, b);
    if b.len() > 0 {
        assert((a + b).last() == b.last());
    } else {
        assert(a + b =~= a);
    }
    lemma_newline_count_none(line);
    assert(line.push(10).drop_last() =~= line);
}

proof fn lemma_newline_count_none(line: Seq<u8>)
    requires
        forall|i: int| 0 <= i < line.len() ==> line[i] != 10,
    ensures
        newline_count(line) == 0,
    decreases line.len(),
{
    if line.len() > 0 {
        lemma_newline_count_none(line.drop_last());
    }
}

/// The GPU entries of `lspci` lines come in the order of the lines; lines that are not about
/// a graphics device add nothing.
pub proof fn law_gpu_entries_append(a: Seq<Seq<char>>, b: Seq<Seq<char>>, other: Seq<char>)
    requires
        !contains(other, "VGA"@),
        !contains(other, "3D controller"@),
    ensures
        gpu_entries(a + b) == gpu_entries(a) + gpu_entries(b),
        gpu_entries(seq![other]) == Seq::<Seq<char>>::empty(),
    decreases a.len(),
{
    assert(seq![other].drop_first() =~= Seq::<Seq<char>>::empty());
    assert(seq![other][0] == other);
    assert(!is_gpu_line(other));
    assert(gpu_entries(Seq::<Seq<char>>::empty()) == Seq::<Seq<char>>::empty());
    if a.len() == 0 {
        assert(a + b =~= b);
        assert(gpu_entries(a) + gpu_entries(b) =~= gpu_entries(b));
    } else {
        assert((a + b).drop_first() =~= a.drop_first() + b);
        assert((a + b)[0] == a[0]);
        law_gpu_entries_append(a.drop_first(), b, other);
        let rest = gpu_entries(a.drop_first());
        assert(seq![a[0]] + rest + gpu_entries(b) =~= seq![a[0]] + (rest + gpu_entries(b)));
        if is_gpu_line(a[0]) {
            match split_once(a[0], ": "@) {
                Some((_, info)) => {
                    let e = gpu_vendor(gpu_model(info)) + " "@ + gpu_tag(a[0]);
                    assert(seq![e] + (rest + gpu_entries(b)) =~= seq![e] + rest + gpu_entries(
                        b,
                    ));
                },
                None => {},
            }
        }
    }
}

/// A VGA controller is tagged integrated, a discrete graphics controller discrete; the
/// vendors NVIDIA, AMD and Intel are shown by their short names, any other as "Unknown".
pub proof fn law_gpu_tags_and_vendors(line: Seq<char>, name: Seq<char>)
    ensures
        contains(line, "VGA compatible controller"@) ==> gpu_tag(line) == "[Integrated]"@,
        !contains(line, "VGA compatible controller"@) && contains(
            line,
            "Discrete Graphics Controller"@,
        ) ==> gpu_tag(line) == "[Discrete]"@,
        !contains(line, "VGA compatible controller"@) && !contains(
            line,
            "Discrete Graphics Controller"@,
        ) ==> gpu_tag(line).len() == 0,
        contains(name, "NVIDIA Corporation"@) ==> gpu_vendor(name) == replace_all(
            name,
            "NVIDIA Corporation"@,
            "NVIDIA"@,
        ),
        !contains(name, "NVIDIA Corporation"@) && contains(
            name,
            "Advanced Micro Devices, Inc. [AMD/ATI]"@,
        ) ==> gpu_vendor(name) == replace_all(
            name,
            "Advanced Micro Devices, Inc. [AMD/ATI]"@,
            "AMD"@,
        ),
        !contains(name, "NVIDIA Corporation"@) && !contains(
            name,
            "Advanced Micro Devices, Inc. [AMD/ATI]"@,
        ) && contains(name, "Intel Corporation"@) ==> gpu_vendor(name) == replace_all(
            name,
            "Intel Corporation"@,
            "Intel"@,
        ),
        !contains(name, "NVIDIA Corporation"@) && !contains(
            name,
            "Advanced Micro Devices, Inc. [AMD/ATI]"@,
        ) && !contains(name, "Intel Corporation"@) ==> gpu_vendor(name) == "Unknown"@,
{
}

/// The native package managers are tried in the order pacman, dpkg, rpm: the first that
/// could be run gives the native count, under its name, and the others are not used; the
/// header line of `snap list` is not counted.
#[verifier::rlimit(30)]
pub proof fn law_native_manager_order(a: u64, b: u64, c: u64)
    requires
        a > 0,
        b > 0,
        c > 0,
    ensures
        packages_line(seq![Some(a), Some(b), Some(c)], None, None, None) == decimal(a as nat)
            + " (pacman)"@,
        packages_line(seq![None, Some(b), Some(c)], None, None, None) == decimal(b as nat)
            + " (dpkg)"@,
        packages_line(seq![None, None, Some(c)], None, None, None) == decimal(c as nat)
            + " (rpm)"@,
        packages_line(seq![None, None, None], None, None, None) == Seq::<char>::empty(),
        c > 1 ==> packages_line(seq![], None, None, Some(c)) == decimal((c - 1) as nat)
            + " (snap)"@,
        packages_line(seq![], None, None, Some(1)) == Seq::<char>::empty(),
{
    reveal_strlit(" (");
    reveal_strlit(")");
    reveal_strlit("pacman");
    reveal_strlit(" (pacman)");
    reveal_strlit("dpkg");
    reveal_strlit(" (dpkg)");
    reveal_strlit("rpm");
    reveal_strlit(" (rpm)");
    reveal_strlit("snap");
    reveal_strlit(" (snap)");
    assert(" (pacman)"@ =~= " ("@ + "pacman"@ + ")"@);
    assert(" (dpkg)"@ =~= " ("@ + "dpkg"@ + ")"@);
    assert(" (rpm)"@ =~= " ("@ + "rpm"@ + ")"@);
    assert(" (snap)"@ =~= " ("@ + "snap"@ + ")"@);
    lemma_entry_text(decimal(a as nat), "pacman"@, " (pacman)"@);
    lemma_entry_text(decimal(b as nat), "dpkg"@, " (dpkg)"@);
    lemma_entry_text(decimal(c as nat), "rpm"@, " (rpm)"@);
    lemma_entry_text(decimal((c - 1) as nat), "snap"@, " (snap)"@);
    let none = Seq::<Seq<char>>::empty();
    let ea = decimal(a as nat) + " (pacman)"@;
    let eb = decimal(b as nat) + " (dpkg)"@;
    let ec = decimal(c as nat) + " (rpm)"@;
    let es = decimal((c - 1) as nat) + " (snap)"@;
    assert(native_managers()[1].0 == "dpkg"@);
    assert(native_managers()[2].0 == "rpm"@);
    assert(seq![ea] + none + none + none =~= seq![ea]);
    assert(seq![eb] + none + none + none =~= seq![eb]);
    assert(seq![ec] + none + none + none =~= seq![ec]);
    assert(none + none + none + seq![es] =~= seq![es]);
    assert(none + none + none + none =~= none);
}

/// The host line is the product name, then the product family in parentheses, each trimmed;
/// "Unknown" stands for one that cannot be read.
pub proof fn law_host_line(name: Seq<char>, family: Seq<char>)
    ensures
        host_line(Some(name), Some(family)) == trim(name) + " ("@ + trim(family) + ")"@,
        host_line(None, None) == "Unknown (Unknown)"@,
{
    reveal_strlit("Unknown");
    reveal_strlit(" (");
    reveal_strlit(")");
    reveal_strlit("Unknown (Unknown)");
    law_trim_set_exact(seq![], "Unknown"@, seq![], CharSet::Whitespace);
    assert(Seq::<char>::empty() + "Unknown"@ + Seq::<char>::empty() =~= "Unknown"@);
    assert("Unknown"@ + " ("@ + "Unknown"@ + ")"@ =~= "Unknown (Unknown)"@);
}

/// Without the output of `ip route`, or without a line in it that has ` src `, the address
/// line says that the machine is offline.
pub proof fn law_ip_offline(route: Seq<char>)
    requires
        forall|i: int| 0 <= i < lines(route).len() ==> !contains(#[trigger] lines(route)[i], " src "@),
    ensures
        ip_line(None) == "(none): offline"@,
        ip_line(Some(route)) == "(none): offline"@,
{
    lemma_first_containing_none(lines(route), " src "@);
}

proof fn lemma_first_containing_none(ls: Seq<Seq<char>>, p: Seq<char>)
    requires
        forall|i: int| 0 <= i < ls.len() ==> !contains(#[trigger] ls[i], p),
    ensures
        first_containing(ls, p) is None,
    decreases ls.len(),
{
    if ls.len() > 0 {
        assert(!contains(ls[0], p));
        assert forall|i: int| 0 <= i < ls.drop_first().len() implies !contains(
            #[trigger] ls.drop_first()[i],
            p,
        ) by {
            assert(ls.drop_first()[i] == ls[i + 1]);
        }
        lemma_first_containing_none(ls.drop_first(), p);
    }
}

/// The OS is named by the quoted value of the first `PRETTY_NAME=` line of `/etc/os-release`,
/// shown without its quotes; its ID by the value of the first `ID=` line, trimmed.
#[verifier::rlimit(30)]
pub proof fn law_os_release(head: Seq<char>, v: Seq<char>, rest: Seq<char>)
    requires
        head.len() == 0 || head.last() == '\n',
        forall|i: int| 0 <= i < lines(head).len() ==> !starts_with(
            #[trigger] lines(head)[i],
            "PRETTY_NAME="@,
        ) && !starts_with(lines(head)[i], "ID="@),
        v.len() > 0,
        forall|i: int| 0 <= i < v.len() ==> v[i] != '=' && v[i] != '\n' && v[i] != '"',
        !crate::text::is_ws(v[0]),
        !crate::text::is_ws(v.last()),
    ensures
        os_pretty_name(Some(head + "PRETTY_NAME="@ + (seq!['"'] + v + seq!['"']) + seq!['\n'] + rest))
            == v,
        os_id(Some(head + "ID="@ + v + seq!['\n'] + rest)) == v,
{
    reveal_strlit("PRETTY_NAME=");
    reveal_strlit("ID=");
    let q = seq!['"'] + v + seq!['"'];
    assert forall|i: int| 0 <= i < q.len() implies q[i] != '=' && q[i] != '\n' by {
        if 0 < i < q.len() - 1 {
            assert(q[i] == v[i - 1]);
        }
    }
    assert("PRETTY_NAME="@.take(12) =~= "PRETTY_NAME="@);
    law_first_keyed_line(head, "PRETTY_NAME="@, q, rest, '=', "PRETTY_NAME="@);
    law_trim_set_exact(seq!['"'], v, seq!['"'], CharSet::Char('"'));
    assert(seq!['"'] + v + seq!['"'] == q);
    assert(crate::text::is_ws('\r'));
    assert("ID="@.take(3) =~= "ID="@);
    law_first_keyed_line(head, "ID="@, v, rest, '=', "ID="@);
    law_trim_set_exact(Seq::<char>::empty(), v, Seq::<char>::empty(), CharSet::Whitespace);
    assert(Seq::<char>::empty() + v + Seq::<char>::empty() =~= v);
}

/// The CPU model is the value of the first `model name` line of `/proc/cpuinfo`, after its
/// `:`, trimmed.
#[verifier::rlimit(30)]
pub proof fn law_cpu_model(head: Seq<char>, model: Seq<char>, rest: Seq<char>)
    requires
        head.len() == 0 || head.last() == '\n',
        forall|i: int| 0 <= i < lines(head).len() ==> !starts_with(
            #[trigger] lines(head)[i],
            "model name"@,
        ),
        model.len() > 0,
        forall|i: int| 0 <= i < model.len() ==> model[i] != ':' && model[i] != '\n',
        !crate::text::is_ws(model[0]),
        !crate::text::is_ws(model.last()),
    ensures
        cpu_model(head + "model name\t:"@ + (seq![' '] + model) + seq!['\n'] + rest) == model,
{
    reveal_strlit("model name\t:");
    reveal_strlit("model name");
    let key = "model name\t:"@;
    let value = seq![' '] + model;
    assert forall|i: int| 0 <= i < value.len() implies value[i] != ':' && value[i] != '\n' by {
        if i > 0 {
            assert(value[i] == model[i - 1]);
        }
    }
    assert(value.last() == model.last());
    assert(crate::text::is_ws('\r'));
    assert(key.take(10) =~= "model name"@);
    law_first_keyed_line(head, key, value, rest, ':', "model name"@);
    law_trim_set_exact(seq![' '], model, Seq::<char>::empty(), CharSet::Whitespace);
    assert(seq![' '] + model + Seq::<char>::empty() =~= value);
}

/// The uptime field is the first number of `/proc/uptime`, as text; "0.0" when it cannot be
/// read.
#[verifier::rlimit(30)]
pub proof fn law_uptime_field(w: Seq<char>, v: Seq<char>)
    requires
        w.len() > 0,
        v.len() > 0,
        forall|i: int| 0 <= i < w.len() ==> !crate::text::is_ws(#[trigger] w[i]),
        forall|i: int| 0 <= i < v.len() ==> !crate::text::is_ws(#[trigger] v[i]),
    ensures
        uptime_text(Some(w + seq![' '] + v + seq!['\n'])) == w,
        uptime_text(None) == "0.0"@,
{
    let m = w + seq![' '] + v;
    assert(crate::text::is_ws('\n'));
    assert(m[0] == w[0]);
    assert(m.last() == v.last());
    assert(w + seq![' '] + v + seq!['\n'] =~= Seq::<char>::empty() + m + seq!['\n']);
    law_trim_set_exact(Seq::<char>::empty(), m, seq!['\n'], CharSet::Whitespace);
    assert(m =~= Seq::<char>::empty() + w + (seq![' '] + v));
    law_words_first(Seq::<char>::empty(), w, seq![' '] + v);
    let d = "0.0 hours, 0.0 mins"@;
    reveal_strlit("0.0 hours, 0.0 mins");
    reveal_strlit("0.0");
    reveal_strlit(" hours, 0.0 mins");
    assert(d =~= Seq::<char>::empty() + d + Seq::<char>::empty());
    law_trim_set_exact(Seq::<char>::empty(), d, Seq::<char>::empty(), CharSet::Whitespace);
    assert(d =~= Seq::<char>::empty() + "0.0"@ + " hours, 0.0 mins"@);
    assert forall|i: int| 0 <= i < 3 implies !crate::text::is_ws(#[trigger] "0.0"@[i]) by {}
    law_words_first(Seq::<char>::empty(), "0.0"@, " hours, 0.0 mins"@);
}

/// A field of `/proc/meminfo` is read from the first line that starts with its label: the
/// number after the label, without its unit.
#[verifier::rlimit(30)]
pub proof fn law_meminfo_field(
    head: Seq<char>,
    label: Seq<char>,
    spaces: Seq<char>,
    v: Seq<char>,
    rest: Seq<char>,
)
    requires
        head.len() == 0 || head.last() == '\n',
        forall|i: int| 0 <= i < lines(head).len() ==> !starts_with(#[trigger] lines(head)[i], label),
        label.len() > 0,
        label.last() == ':',
        forall|i: int| 0 <= i < label.len() ==> !crate::text::is_ws(#[trigger] label[i]),
        forall|i: int| 0 <= i < label.len() - 1 ==> label[i] != ':',
        spaces.len() > 0,
        forall|i: int| 0 <= i < spaces.len() ==> spaces[i] == ' ',
        v.len() > 0,
        forall|i: int| 0 <= i < v.len() ==> !crate::text::is_ws(#[trigger] v[i]) && v[i] != ':',
    ensures
        meminfo_text(Some(head + label + (spaces + v + " kB"@) + seq!['\n'] + rest), label) == v,
{
    reveal_strlit(" kB");
    reveal_strlit("kB");
    let value = spaces + v + " kB"@;
    assert(crate::text::is_ws('\n') && crate::text::is_ws('\r'));
    assert forall|i: int| 0 <= i < value.len() implies value[i] != ':' && value[i] != '\n' by {
        if i < spaces.len() {
            assert(value[i] == spaces[i]);
        } else if i < spaces.len() + v.len() {
            assert(value[i] == v[i - spaces.len()]);
        }
    }
    assert(label.take(label.len() as int) =~= label);
    law_first_keyed_line(head, label, value, rest, ':', label);
    assert(value[0] == spaces[0]);
    assert(label + value =~= Seq::<char>::empty() + label + value);
    law_words_first(Seq::<char>::empty(), label, value);
    assert forall|i: int| 0 <= i < spaces.len() implies crate::text::is_ws(#[trigger] spaces[i]) by {}
    assert(value =~= spaces + v + " kB"@);
    law_words_first(spaces, v, " kB"@);
    law_trim_set_exact(Seq::<char>::empty(), v, Seq::<char>::empty(), CharSet::Whitespace);
    assert(Seq::<char>::empty() + v + Seq::<char>::empty() =~= v);
}

/// The address line names the interface (the word before ` src `) and the address (the word
/// after it) of the first line of `ip route get 1` that has ` src `.
#[verifier::rlimit(30)]
pub proof fn law_ip_line(
    head: Seq<char>,
    before: Seq<char>,
    iface: Seq<char>,
    ip: Seq<char>,
    after: Seq<char>,
    rest: Seq<char>,
)
    requires
        head.len() == 0 || head.last() == '\n',
        forall|i: int| 0 <= i < lines(head).len() ==> !contains(#[trigger] lines(head)[i], " src "@),
        before.len() == 0 || crate::text::is_ws(before.last()),
        iface.len() > 0,
        forall|i: int| 0 <= i < iface.len() ==> !crate::text::is_ws(#[trigger] iface[i]),
        ip.len() > 0,
        forall|i: int| 0 <= i < ip.len() ==> !crate::text::is_ws(#[trigger] ip[i]),
        after.len() == 0 || crate::text::is_ws(after[0]),
        forall|i: int| 0 <= i < before.len() ==> before[i] != '\n',
        forall|i: int| 0 <= i < after.len() ==> after[i] != '\n' && after[i] != '\r',
        !contains(before + iface + " src"@, " src "@),
    ensures
        ip_line(Some(head + (before + iface + " src "@ + ip + after) + seq!['\n'] + rest)) == "("@
            + iface + "): "@ + ip,
{
    reveal_strlit(" src ");
    let p = " src "@;
    let left = before + iface;
    let right = ip + after;
    let line = left + p + right;
    assert(before + iface + " src "@ + ip + after =~= line);
    assert(crate::text::is_ws('\n') && crate::text::is_ws('\r'));
    assert forall|i: int| 0 <= i < line.len() implies line[i] != '\n' by {
        if i < before.len() {
            assert(line[i] == before[i]);
        } else if i < left.len() {
            assert(line[i] == iface[i - before.len()]);
        } else if i < left.len() + 5 {
            assert(line[i] == p[i - left.len()]);
        } else if i < left.len() + 5 + ip.len() {
            assert(line[i] == ip[i - left.len() - 5]);
        } else {
            assert(line[i] == after[i - left.len() - 5 - ip.len()]);
        }
    }
    assert(line.last() != '\r') by {
        if after.len() > 0 {
            assert(line.last() == after.last());
        } else {
            assert(line.last() == ip.last());
        }
    }
    reveal_strlit(" src");
    assert(p.drop_last() =~= " src"@);
    assert(left + p.drop_last() =~= before + iface + " src"@);
    crate::text::law_split_once_at_first(left, p, right);
    law_first_line_containing(head, line, rest, p);
    law_words_append(before, iface);
    assert(iface =~= Seq::<char>::empty() + iface + Seq::<char>::empty());
    law_words_first(Seq::<char>::empty(), iface, Seq::<char>::empty());
    crate::text::law_words_blank(Seq::<char>::empty());
    assert(words(left) == words(before) + seq![iface]);
    assert(right =~= Seq::<char>::empty() + ip + after);
    law_words_first(Seq::<char>::empty(), ip, after);
}

/// The fetch's lines, each with its label: user@host, a rule, the system's lines, the
/// desktop's seven, then disk, GPU, terminal, battery, locale, packages and address.
pub proof fn law_info_labels(i: SystemInfo)
    ensures
        info_lines(i)[0] == i.user@ + "@"@ + i.hostname@,
        info_lines(i)[1] == "-----------"@,
        info_lines(i)[2] == "OS: "@ + i.os@,
        info_lines(i)[3] == "Host: "@ + i.host@,
        info_lines(i)[4] == "Kernel: "@ + i.kernel@,
        info_lines(i)[5] == "Uptime: "@ + i.uptime@,
        info_lines(i)[6] == "CPU: "@ + i.cpu@,
        info_lines(i)[7] == "Memory: "@ + i.memory@,
        info_lines(i)[8] == "Swap: "@ + i.swap@,
        info_lines(i)[9] == "Shell: "@ + i.shell@,
        info_lines(i)[17] == "Disk: "@ + i.disk@,
        info_lines(i)[18] == "GPU: "@ + i.gpu@,
        info_lines(i)[19] == "Terminal: "@ + i.terminal@,
        info_lines(i)[20] == "Battery "@ + i.battery@,
        info_lines(i)[21] == "Locale: "@ + i.locale@,
        info_lines(i)[22] == "Packages: "@ + i.packages@,
        info_lines(i)[23] == "Local IP "@ + i.ip@,
{
}

/// A GPU's description is shown without its revision: what comes before the first ` (rev`,
/// trimmed; a description without one is only trimmed.
pub proof fn law_gpu_model(name: Seq<char>, revision: Seq<char>, info: Seq<char>)
    requires
        !contains(name + " (re"@, " (rev"@),
    ensures
        gpu_model(name + " (rev"@ + revision) == trim(name),
        !contains(info, " (rev"@) ==> gpu_model(info) == trim(info),
{
    reveal_strlit(" (rev");
    reveal_strlit(" (re");
    assert(" (rev"@.drop_last() =~= " (re"@);
    crate::text::law_split_once_at_first(name, " (rev"@, revision);
    if crate::text::find(info, " (rev"@) is Some {
        crate::text::lemma_find(info, " (rev"@);
    }
}

/// The shell is shown by the last part of its path.
pub proof fn law_shell_name(dir: Seq<char>, name: Seq<char>)
    requires
        forall|i: int| 0 <= i < name.len() ==> name[i] != '/',
    ensures
        after_last(or_unknown(Some(dir + seq!['/'] + name)), '/') == name,
{
    crate::text::law_after_last(dir, name, '/');
}

/// A power supply is a battery when its `type` file mentions "Battery"; one whose type cannot
/// be read is not.
pub proof fn law_battery_kind(before: Seq<char>, after: Seq<char>)
    ensures
        battery_kind(Some(before + "Battery"@ + after)),
        !battery_kind(None),
{
    reveal_strlit("Battery");
    let s = before + "Battery"@ + after;
    assert(s.subrange(before.len() as int, before.len() + 7int) =~= "Battery"@);
    assert(matches_at(s, "Battery"@, before.len() as int));
    assert forall|i: int| !matches_at(Seq::<char>::empty(), "Battery"@, i) by {}
}

/// The parent process is read from the first `PPid:` line of a status file: the number after
/// the colon, without the whitespace around it.
#[verifier::rlimit(30)]
pub proof fn law_parent_pid(head: Seq<char>, spaces: Seq<char>, pid: Seq<char>, rest: Seq<char>)
    requires
        head.len() == 0 || head.last() == '\n',
        forall|i: int| 0 <= i < lines(head).len() ==> !starts_with(#[trigger] lines(head)[i], "PPid:"@),
        forall|i: int| 0 <= i < spaces.len() ==> spaces[i] == ' ' || spaces[i] == '\t',
        pid.len() > 0,
        forall|i: int| 0 <= i < pid.len() ==> !crate::text::is_ws(#[trigger] pid[i]) && pid[i] != ':',
    ensures
        parent_pid_of(head + "PPid:"@ + (spaces + pid) + seq!['\n'] + rest) == Some(pid),
{
    reveal_strlit("PPid:");
    reveal_strlit(":");
    let key = "PPid:"@;
    let value = spaces + pid;
    assert(crate::text::is_ws('\n') && crate::text::is_ws('\r'));
    assert forall|i: int| 0 <= i < value.len() implies value[i] != ':' && value[i] != '\n' by {
        if i < spaces.len() {
            assert(value[i] == spaces[i]);
        } else {
            assert(value[i] == pid[i - spaces.len()]);
        }
    }
    assert(value.last() == pid.last());
    assert(key.take(5) =~= key);
    law_first_keyed_line(head, key, value, rest, ':', key);
    let line = key + value;
    assert(line.subrange(4, 5) =~= ":"@);
    assert(crate::text::first_match(line, ":"@, 4)) by {
        assert forall|j: int| 0 <= j < 4 implies !matches_at(line, ":"@, j) by {
            if matches_at(line, ":"@, j) {
                assert(line.subrange(j, j + 1)[0] == line[j]);
            }
        }
    }
    lemma_first_match_unique(line, ":"@, 4);
    assert(line.skip(5) =~= value);
    assert forall|i: int| 0 <= i < spaces.len() implies crate::text::is_ws(#[trigger] spaces[i]) by {}
    law_trim_set_exact(spaces, pid, Seq::<char>::empty(), CharSet::Whitespace);
    assert(spaces + pid + Seq::<char>::empty() =~= value);
}

/// Each graphics line of `lspci` with a `: ` gives one entry: the device's description with
/// the vendor's short name, a space, and its tag; the entries are joined with `| `.
pub proof fn law_one_gpu(line: Seq<char>, address: Seq<char>, info: Seq<char>, lspci: Seq<char>)
    requires
        is_gpu_line(line),
        split_once(line, ": "@) == Some((address, info)),
    ensures
        gpu_entries(seq![line]) == seq![gpu_vendor(gpu_model(info)) + " "@ + gpu_tag(line)],
        gpu_line(lspci) == join(gpu_entries(lines(lspci)), "| "@),
{
    assert(seq![line].drop_first() =~= Seq::<Seq<char>>::empty());
    assert(seq![line][0] == line);
    let e = gpu_vendor(gpu_model(info)) + " "@ + gpu_tag(line);
    assert(gpu_entries(Seq::<Seq<char>>::empty()) == Seq::<Seq<char>>::empty());
    assert(gpu_entries(seq![line]) == seq![e] + gpu_entries(Seq::<Seq<char>>::empty()));
    assert(seq![e] + Seq::<Seq<char>>::empty() =~= seq![e]);
}

} // verus!
