//! The desktop entry that vouches for this executable, so that the compositor offers it the protocol
//! for virtual outputs.
use crate::text::same_text;
use vstd::prelude::*;

verus! {

/// The desktop entry for an executable.
pub open spec fn entry_text(exe: Seq<char>) -> Seq<char> {
    "[Desktop Entry]\nType=Application\nName=TabScreen Server\nComment=Second screen server for tablets (registered automatically)\nExec="@
        + exe + "\nNoDisplay=true\nX-KDE-Wayland-Interfaces=zkde_screencast_unstable_v1\n"@
}

/// The desktop entry for an executable.
pub fn desktop_entry(exe: &str) -> (r: String)
    ensures
        r@ == entry_text(exe@),
{
    let mut s =
        "[Desktop Entry]\nType=Application\nName=TabScreen Server\nComment=Second screen server for tablets (registered automatically)\nExec=".to_owned();
    s.append(exe);
    s.append("\nNoDisplay=true\nX-KDE-Wayland-Interfaces=zkde_screencast_unstable_v1\n");
    s
}

/// The entry that has to be written for an executable, by what is on file.
pub open spec fn entry_to_write(exe: Seq<char>, on_file: Option<Seq<char>>) -> Option<Seq<char>> {
    if on_file == Some(entry_text(exe)) {
        None
    } else {
        Some(entry_text(exe))
    }
}

/// The entry that has to be written for an executable, if what is on file is not that entry already.
pub fn ensure_registered(exe: &str, on_file: Option<&str>) -> (r: Option<String>)
    ensures
        entry_to_write(
            exe@,
            match on_file {
                Some(s) => Some(s@),
                None => None,
            },
        ) == (match r {
            Some(content) => Some(content@),
            None => None,
        }),
{
    let content = desktop_entry(exe);
    if let Some(s) = on_file {
        if same_text(s, content.as_str()) {
            return None;
        }
    }
    Some(content)
}

/// An entry is written where none is on file, and where another one is. Once it was written, nothing
/// has to be written again for the same executable.
pub proof fn registering_once_is_enough(exe: Seq<char>, on_file: Option<Seq<char>>)
    ensures
        on_file is None ==> entry_to_write(exe, on_file) is Some,
        entry_to_write(exe, on_file) matches Some(entry) ==> entry_to_write(exe, Some(entry)) is None
            && on_file != Some(entry),
        entry_to_write(exe, on_file) is None ==> entry_to_write(exe, None) == on_file,
{
}

proof fn lemma_between(head: Seq<char>, a: Seq<char>, b: Seq<char>, tail: Seq<char>)
    requires
        head + a + tail == head + b + tail,
    ensures
        a == b,
{
    let s = head + a + tail;
    assert(s.len() == head.len() + a.len() + tail.len());
    assert((head + b + tail).len() == head.len() + b.len() + tail.len());
    assert(a =~= s.subrange(head.len() as int, (head.len() + a.len()) as int));
    assert(b =~= (head + b + tail).subrange(head.len() as int, (head.len() + b.len()) as int));
}

proof fn lemma_starts(head: Seq<char>, exe: Seq<char>, tail: Seq<char>)
    ensures
        (head + exe).is_prefix_of(head + exe + tail),
        (exe + tail).is_suffix_of(head + exe + tail),
{
    let s = head + exe + tail;
    assert(head + exe =~= s.subrange(0, (head + exe).len() as int));
    assert(exe + tail =~= s.subrange(s.len() - (exe + tail).len(), s.len() as int));
}

/// An entry runs its executable, and is one for which the compositor offers the protocol.
pub proof fn entries_vouch_for_their_executable(exe: Seq<char>)
    ensures
        ("[Desktop Entry]\nType=Application\nName=TabScreen Server\nComment=Second screen server for tablets (registered automatically)\nExec="@
            + exe).is_prefix_of(entry_text(exe)),
        (exe
            + "\nNoDisplay=true\nX-KDE-Wayland-Interfaces=zkde_screencast_unstable_v1\n"@).is_suffix_of(
            entry_text(exe)),
{
    lemma_starts(
        "[Desktop Entry]\nType=Application\nName=TabScreen Server\nComment=Second screen server for tablets (registered automatically)\nExec="@,
        exe,
        "\nNoDisplay=true\nX-KDE-Wayland-Interfaces=zkde_screencast_unstable_v1\n"@,
    );
}

/// Two executables never share an entry: one that was moved is registered again.
pub proof fn moved_executables_are_registered_again(exe: Seq<char>, other: Seq<char>)
    requires
        exe != other,
    ensures
        entry_to_write(exe, Some(entry_text(other))) == Some(entry_text(exe)),
        entry_text(exe) != entry_text(other),
{
    if entry_text(exe) == entry_text(other) {
        lemma_between(
            "[Desktop Entry]\nType=Application\nName=TabScreen Server\nComment=Second screen server for tablets (registered automatically)\nExec="@,
            exe,
            other,
            "\nNoDisplay=true\nX-KDE-Wayland-Interfaces=zkde_screencast_unstable_v1\n"@,
        );
    }
}

} // verus!
