//! What correlated imports, libraries and strings of an image must be told as.

use crate::bytes::holds_narrow;
use crate::heuristic::analysis::{
    chain_indicators, credential_harvest, defender_tampering, driver_termination,
    dynamic_load_chain, hooking_chain, injection_chain, is_proxy_library, persistence_hits,
    privilege_chain, proxy_library, ransom_chain, reflective_loader_chain, sideload_injection,
    suspicious_imports, threadpool_hits, threadpool_obfuscation, uac_bypass,
};
use crate::text::{any_contains, contains_text, lowered, only_if};
use crate::text_laws::law_more_bytes_hide_nothing;
use vstd::prelude::*;

verus! {

/// Some import has the text in its name.
#[verifier::opaque]
pub open spec fn names(imports: Seq<Seq<char>>, text: Seq<char>) -> bool {
    exists|i: int| 0 <= i < imports.len() && contains_text(#[trigger] imports[i], text)
}

proof fn lemma_one_more(rest: Seq<Seq<char>>, condition: bool, label: Seq<char>, t: Seq<char>)
    ensures
        (rest + only_if(condition, label)).contains(t) == (rest.contains(t) || (condition && t
            == label)),
{
    let all = rest + only_if(condition, label);
    if rest.contains(t) {
        let i = rest.index_of(t);
        assert(all[i] == t);
    }
    if condition && t == label {
        assert(all[rest.len() as int] == t);
    }
    if all.contains(t) {
        let i = all.index_of(t);
        if i < rest.len() {
            assert(rest[i] == t);
        }
    }
}

/// The labels of the chains, in their order.
spec fn chain_label(k: int) -> Seq<char> {
    if k == 0 {
        "suspicious_imports"@
    } else if k == 1 {
        "api_injection_chain"@
    } else if k == 2 {
        "api_ransom_chain"@
    } else if k == 3 {
        "privilege_escalation_chain"@
    } else if k == 4 {
        "dynamic_load_chain"@
    } else if k == 5 {
        "white_black_sideload_injection"@
    } else if k == 6 {
        "threadpool_obfuscation"@
    } else if k == 7 {
        "reflective_loader_chain"@
    } else if k == 8 {
        "driver_security_termination"@
    } else if k == 9 {
        "defender_tampering_chain"@
    } else if k == 10 {
        "uac_bypass_chain"@
    } else if k == 11 {
        "persistence_chain"@
    } else if k == 12 {
        "credential_harvest_chain"@
    } else {
        "hooking_chain:setwindowshookex+keyboard"@
    }
}

spec fn chain_holds(
    k: int,
    imports: Seq<Seq<char>>,
    data: Seq<u8>,
    libraries: Seq<Seq<char>>,
) -> bool {
    if k == 0 {
        suspicious_imports(imports)
    } else if k == 1 {
        injection_chain(imports)
    } else if k == 2 {
        ransom_chain(imports)
    } else if k == 3 {
        privilege_chain(imports)
    } else if k == 4 {
        dynamic_load_chain(imports)
    } else if k == 5 {
        sideload_injection(imports, data, libraries)
    } else if k == 6 {
        threadpool_obfuscation(imports)
    } else if k == 7 {
        reflective_loader_chain(imports)
    } else if k == 8 {
        driver_termination(imports, data)
    } else if k == 9 {
        defender_tampering(imports, data)
    } else if k == 10 {
        uac_bypass(imports, data)
    } else if k == 11 {
        persistence_hits(data) >= 2
    } else if k == 12 {
        credential_harvest(imports, data)
    } else {
        hooking_chain(imports, data)
    }
}

#[verifier::opaque]
spec fn told(c: spec_fn(int) -> bool, n: int) -> Seq<Seq<char>>
    decreases n,
{
    if n <= 0 {
        Seq::empty()
    } else {
        told(c, n - 1) + only_if(c(n - 1), chain_label(n - 1))
    }
}

proof fn lemma_told_holds(c: spec_fn(int) -> bool, n: int, t: Seq<char>)
    requires
        0 <= n <= 14,
    ensures
        told(c, n).contains(t) <==> exists|k: int|
            0 <= k < n && c(k) && t == #[trigger] chain_label(k),
    decreases n,
{
    reveal_with_fuel(told, 2);
    if n > 0 {
        lemma_told_holds(c, n - 1, t);
        lemma_one_more(told(c, n - 1), c(n - 1), chain_label(n - 1), t);
        if told(c, n).contains(t) {
            if told(c, n - 1).contains(t) {
                let k = choose|k: int| 0 <= k < n - 1 && c(k) && t == #[trigger] chain_label(k);
                assert(0 <= k < n && c(k) && t == chain_label(k));
            } else {
                assert(t == chain_label(n - 1));
            }
        }
    }
}

spec fn label_mark(t: Seq<char>) -> (nat, char) {
    (t.len(), t[0])
}

proof fn lemma_marks_low()
    ensures
        label_mark(chain_label(0)) == (18nat, 's'),
        label_mark(chain_label(1)) == (19nat, 'a'),
        label_mark(chain_label(2)) == (16nat, 'a'),
        label_mark(chain_label(3)) == (26nat, 'p'),
        label_mark(chain_label(4)) == (18nat, 'd'),
        label_mark(chain_label(5)) == (30nat, 'w'),
        label_mark(chain_label(6)) == (22nat, 't'),
{
    reveal_strlit("suspicious_imports");
    reveal_strlit("api_injection_chain");
    reveal_strlit("api_ransom_chain");
    reveal_strlit("privilege_escalation_chain");
    reveal_strlit("dynamic_load_chain");
    reveal_strlit("white_black_sideload_injection");
    reveal_strlit("threadpool_obfuscation");
}

proof fn lemma_marks_high()
    ensures
        label_mark(chain_label(7)) == (23nat, 'r'),
        label_mark(chain_label(8)) == (27nat, 'd'),
        label_mark(chain_label(9)) == (24nat, 'd'),
        label_mark(chain_label(10)) == (16nat, 'u'),
        label_mark(chain_label(11)) == (17nat, 'p'),
        label_mark(chain_label(12)) == (24nat, 'c'),
        label_mark(chain_label(13)) == (39nat, 'h'),
{
    reveal_strlit("reflective_loader_chain");
    reveal_strlit("driver_security_termination");
    reveal_strlit("defender_tampering_chain");
    reveal_strlit("uac_bypass_chain");
    reveal_strlit("persistence_chain");
    reveal_strlit("credential_harvest_chain");
    reveal_strlit("hooking_chain:setwindowshookex+keyboard");
}

proof fn lemma_labels_differ(j: int, k: int)
    requires
        0 <= j < 14,
        0 <= k < 14,
        chain_label(j) == chain_label(k),
    ensures
        j == k,
{
    lemma_marks_low();
    lemma_marks_high();
}

proof fn lemma_chains_listed(imports: Seq<Seq<char>>, data: Seq<u8>, libraries: Seq<Seq<char>>)
    ensures
        chain_indicators(imports, data, libraries) == told(
            |k: int| chain_holds(k, imports, data, libraries),
            14,
        ),
{
    reveal_with_fuel(told, 15);
}

proof fn lemma_chain_told(
    k: int,
    imports: Seq<Seq<char>>,
    data: Seq<u8>,
    libraries: Seq<Seq<char>>,
)
    requires
        0 <= k < 14,
    ensures
        chain_indicators(imports, data, libraries).contains(chain_label(k)) <==> chain_holds(
            k,
            imports,
            data,
            libraries,
        ),
{
    let c = |k: int| chain_holds(k, imports, data, libraries);
    lemma_chains_listed(imports, data, libraries);
    lemma_told_holds(c, 14, chain_label(k));
    if told(c, 14).contains(chain_label(k)) {
        let j = choose|j: int| 0 <= j < 14 && c(j) && chain_label(k) == #[trigger] chain_label(j);
        lemma_labels_differ(j, k);
    }
    if chain_holds(k, imports, data, libraries) {
        assert(c(k));
        assert(0 <= k < 14 && c(k) && chain_label(k) == chain_label(k));
    }
}

/// Injection is told exactly where an import allocates memory, one writes it in another
/// process and one starts a thread there.
pub proof fn law_injection_is_told(
    imports: Seq<Seq<char>>,
    data: Seq<u8>,
    libraries: Seq<Seq<char>>,
)
    ensures
        chain_indicators(imports, data, libraries).contains("api_injection_chain"@) <==> names(
            imports,
            "virtualalloc"@,
        ) && names(imports, "writeprocessmemory"@) && names(imports, "createremotethread"@),
{
    reveal(names);
    lemma_chain_told(1, imports, data, libraries);
}

/// Ransom behaviour is told exactly where imports acquire a key store, encrypt, and delete or
/// move files.
pub proof fn law_ransom_is_told(
    imports: Seq<Seq<char>>,
    data: Seq<u8>,
    libraries: Seq<Seq<char>>,
)
    ensures
        chain_indicators(imports, data, libraries).contains("api_ransom_chain"@) <==> names(
            imports,
            "cryptacquirecontext"@,
        ) && names(imports, "cryptencrypt"@) && (names(imports, "deletefile"@) || names(
            imports,
            "movefile"@,
        )),
{
    reveal(names);
    lemma_chain_told(2, imports, data, libraries);
}

/// Raised privileges are told exactly where imports open a token, adjust its privileges and
/// open a process.
pub proof fn law_raised_privileges_are_told(
    imports: Seq<Seq<char>>,
    data: Seq<u8>,
    libraries: Seq<Seq<char>>,
)
    ensures
        chain_indicators(imports, data, libraries).contains("privilege_escalation_chain"@)
            <==> names(imports, "openprocesstoken"@) && names(imports, "adjusttokenprivileges"@)
            && names(imports, "openprocess"@),
{
    reveal(names);
    lemma_chain_told(3, imports, data, libraries);
}

/// Loading at run time is told exactly where imports load libraries and look up functions.
pub proof fn law_loading_at_run_time_is_told(
    imports: Seq<Seq<char>>,
    data: Seq<u8>,
    libraries: Seq<Seq<char>>,
)
    ensures
        chain_indicators(imports, data, libraries).contains("dynamic_load_chain"@) <==> names(
            imports,
            "getprocaddress"@,
        ) && names(imports, "loadlibrary"@),
{
    reveal(names);
    lemma_chain_told(4, imports, data, libraries);
}

/// Single imports of an ill-famed kind are told, and no others.
pub proof fn law_suspicious_imports_are_told(
    imports: Seq<Seq<char>>,
    data: Seq<u8>,
    libraries: Seq<Seq<char>>,
)
    ensures
        chain_indicators(imports, data, libraries).contains("suspicious_imports"@) <==> names(
            imports,
            "virtualalloc"@,
        ) || names(imports, "writeprocessmemory"@) || names(imports, "getprocaddress"@) || names(
            imports,
            "loadlibrary"@,
        ) || names(imports, "createremotethread"@) || names(imports, "cryptencrypt"@) || names(
            imports,
            "adjusttokenprivileges"@,
        ) || names(imports, "setwindowshookex"@),
{
    reveal(names);
    lemma_chain_told(0, imports, data, libraries);
}

/// Reflective loading is told exactly where imports enumerate windows, change the protection
/// of memory, and move code, flush it or load at run time.
pub proof fn law_reflective_loading_is_told(
    imports: Seq<Seq<char>>,
    data: Seq<u8>,
    libraries: Seq<Seq<char>>,
)
    ensures
        chain_indicators(imports, data, libraries).contains("reflective_loader_chain"@) <==> (names(
            imports,
            "enumwindows"@,
        ) || names(imports, "enumchildwindows"@)) && (names(imports, "virtualprotect"@) || names(
            imports,
            "ntprotectvirtualmemory"@,
        )) && (names(imports, "rtlmovememory"@) || names(imports, "ntflushinstructioncache"@) || (
        names(imports, "getprocaddress"@) && names(imports, "loadlibrary"@))),
{
    reveal(names);
    lemma_chain_told(7, imports, data, libraries);
}

/// A bypass of account control is told exactly where the bytes name an elevation target and
/// an import starts programs.
pub proof fn law_account_control_bypass_is_told(
    imports: Seq<Seq<char>>,
    data: Seq<u8>,
    libraries: Seq<Seq<char>>,
)
    ensures
        chain_indicators(imports, data, libraries).contains("uac_bypass_chain"@) <==> (
        holds_narrow(data, "fodhelper.exe"@) || holds_narrow(data, "eventvwr.exe"@)
            || holds_narrow(data, "computerdefaults.exe"@) || holds_narrow(data, "sdclt.exe"@))
            && (names(imports, "shellexecute"@) || names(imports, "createprocess"@) || names(
            imports,
            "winexec"@,
        )),
{
    reveal(names);
    lemma_chain_told(10, imports, data, libraries);
}

/// Keyboard hooking is told exactly where a window hook stands beside keyboard polling, both
/// imported or both named in the bytes.
pub proof fn law_keyboard_hooking_is_told(
    imports: Seq<Seq<char>>,
    data: Seq<u8>,
    libraries: Seq<Seq<char>>,
)
    ensures
        chain_indicators(imports, data, libraries).contains(
            "hooking_chain:setwindowshookex+keyboard"@,
        ) <==> (names(imports, "setwindowshookex"@) && (names(imports, "getasynckeystate"@)
            || names(imports, "getkeyboardstate"@) || names(imports, "getkeyboardlayout"@))) || (
        holds_narrow(data, "SetWindowsHookEx"@) && (holds_narrow(data, "GetAsyncKeyState"@)
            || holds_narrow(data, "GetKeyboardState"@))),
{
    reveal(names);
    lemma_chain_told(13, imports, data, libraries);
}

/// Tampering with the protection is told exactly where the bytes name a setting or hook of it
/// and imports change memory or the bytes hold a command that changes it.
pub proof fn law_protection_tampering_is_told(
    imports: Seq<Seq<char>>,
    data: Seq<u8>,
    libraries: Seq<Seq<char>>,
)
    ensures
        chain_indicators(imports, data, libraries).contains("defender_tampering_chain"@) <==> (
        holds_narrow(data, "amsiscanbuffer"@) || holds_narrow(data, "etweventwrite"@)
            || holds_narrow(data, "disablerealtimemonitoring"@) || holds_narrow(
            data,
            "exclusionpath"@,
        ) || holds_narrow(data, "mpreference"@)) && (names(imports, "virtualalloc"@) || names(
            imports,
            "virtualprotect"@,
        ) || names(imports, "ntprotectvirtualmemory"@) || names(imports, "rtlmovememory"@) || names(
            imports,
            "writeprocessmemory"@,
        ) || holds_narrow(data, "sc stop"@) || holds_narrow(data, "set-mppreference"@)),
{
    reveal(names);
    lemma_chain_told(9, imports, data, libraries);
}

/// Termination of security products by a driver is told exactly where the bytes name such a
/// driver and such a product, and a way to end processes is there.
pub proof fn law_driver_termination_is_told(
    imports: Seq<Seq<char>>,
    data: Seq<u8>,
    libraries: Seq<Seq<char>>,
)
    ensures
        chain_indicators(imports, data, libraries).contains("driver_security_termination"@) <==> (
        holds_narrow(data, "amsdk.sys"@) || holds_narrow(data, "zam.exe"@) || holds_narrow(
            data,
            "watchdog antimalware"@,
        )) && (names(imports, "terminateprocess"@) || holds_narrow(data, "ntterminateprocess"@)
            || holds_narrow(data, "zwterminateprocess"@)) && (holds_narrow(data, "msmpeng.exe"@)
            || holds_narrow(data, "windefend"@) || holds_narrow(data, "csfalconservice.exe"@)
            || holds_narrow(data, "ekrn.exe"@) || holds_narrow(data, "avp.exe"@)),
{
    reveal(names);
    lemma_chain_told(8, imports, data, libraries);
}

/// Two ways to persist are told as a chain; one alone is not.
pub proof fn law_persistence_needs_two_ways(
    imports: Seq<Seq<char>>,
    data: Seq<u8>,
    libraries: Seq<Seq<char>>,
)
    ensures
        ({
            let run = holds_narrow(data, "currentversion\\run"@);
            let task = holds_narrow(data, "schtasks /create"@);
            let service = holds_narrow(data, "create service"@);
            let control = holds_narrow(data, "sc create"@);
            let startup = holds_narrow(data, "\\startup\\"@);
            chain_indicators(imports, data, libraries).contains("persistence_chain"@) <==> (run
                && (task || service || control || startup)) || (task && (service || control
                || startup)) || (service && (control || startup)) || (control && startup)
        }),
{
    reveal(names);
    lemma_chain_told(11, imports, data, libraries);
}

/// The harvest of credentials is told exactly where text is captured, a credential store is
/// named and data can be sent away.
pub proof fn law_credential_harvest_is_told(
    imports: Seq<Seq<char>>,
    data: Seq<u8>,
    libraries: Seq<Seq<char>>,
)
    ensures
        ({
            let capture = names(imports, "getclipboarddata"@) || names(imports, "openclipboard"@)
                || names(imports, "getwindowtext"@) || holds_narrow(data, "GetClipboardData"@)
                || holds_narrow(data, "OpenClipboard"@) || holds_narrow(data, "GetWindowText"@);
            let store = holds_narrow(data, "logins.json"@) || holds_narrow(data, "cookies.sqlite"@)
                || holds_narrow(data, "wallet.dat"@) || holds_narrow(data, "login data"@)
                || holds_narrow(data, "web data"@) || holds_narrow(data, "autofill"@);
            let sent = names(imports, "ftpswebrequest"@) || names(imports, "smtpclient"@) || names(
                imports,
                "httpsendrequest"@,
            ) || names(imports, "winhttpopen"@) || names(imports, "internetopen"@) || holds_narrow(
                data,
                "FtpWebRequest"@,
            ) || holds_narrow(data, "SmtpClient"@) || holds_narrow(data, "HttpSendRequest"@)
                || holds_narrow(data, "WinHttpOpen"@);
            chain_indicators(imports, data, libraries).contains("credential_harvest_chain"@) <==> (
            capture && store && sent)
        }),
{
    reveal(names);
    lemma_chain_told(12, imports, data, libraries);
}

/// Side-loading is told exactly where an ill-famed library is imported, the bytes name a place
/// or a loader, code is brought into memory, and it is resolved or started.
pub proof fn law_side_loading_is_told(
    imports: Seq<Seq<char>>,
    data: Seq<u8>,
    libraries: Seq<Seq<char>>,
)
    ensures
        ({
            let proxy = exists|i: int|
                #![trigger libraries[i]]
                0 <= i < libraries.len() && ({
                    let n = lowered(libraries[i]);
                    n == "version.dll"@ || n == "winmm.dll"@ || n == "dbghelp.dll"@ || n
                        == "wininet.dll"@ || n == "cryptbase.dll"@ || n == "uxtheme.dll"@ || n
                        == "dinput8.dll"@
                });
            let place = holds_narrow(data, "\\appdata\\"@) || holds_narrow(data, "\\local\\temp\\"@)
                || holds_narrow(data, "\\downloads\\"@) || holds_narrow(data, "\\programdata\\"@);
            let loader = holds_narrow(data, "dllmain"@) || holds_narrow(data, "enumwindows"@)
                || holds_narrow(data, "enumchildwindows"@);
            let resolved = names(imports, "getprocaddress"@) && names(imports, "loadlibrary"@);
            let memory = names(imports, "virtualalloc"@) || names(imports, "virtualprotect"@)
                || names(imports, "ntprotectvirtualmemory"@) || names(imports, "rtlmovememory"@)
                || names(imports, "writeprocessmemory"@);
            chain_indicators(imports, data, libraries).contains("white_black_sideload_injection"@)
                <==> (proxy && (place || loader) && (memory || resolved) && (resolved || names(
                imports,
                "createremotethread"@,
            )))
        }),
{
    reveal(names);
    lemma_chain_told(5, imports, data, libraries);
}

/// One where it holds, nothing otherwise.
pub open spec fn counted(holds: bool) -> int {
    if holds {
        1
    } else {
        0
    }
}

proof fn lemma_thread_pool(imports: Seq<Seq<char>>)
    ensures
        threadpool_hits(imports) == counted(names(imports, "createthreadpoolwork"@)) + counted(
            names(imports, "create_threadpool_work"@),
        ) + counted(names(imports, "submitthreadpoolwork"@)) + counted(
            names(imports, "closethreadpoolwork"@),
        ) + counted(names(imports, "tpallocwork"@)) + counted(names(imports, "tppostwork"@))
            + counted(names(imports, "trysubmitthreadpoolcallback"@)) + counted(
            names(imports, "setthreadpooltimer"@),
        ) + counted(names(imports, "createthreadpooltimer"@)),
{
    lemma_names(imports, "createthreadpoolwork"@);
    lemma_names(imports, "create_threadpool_work"@);
    lemma_names(imports, "submitthreadpoolwork"@);
    lemma_names(imports, "closethreadpoolwork"@);
    lemma_names(imports, "tpallocwork"@);
    lemma_names(imports, "tppostwork"@);
    lemma_names(imports, "trysubmitthreadpoolcallback"@);
    lemma_names(imports, "setthreadpooltimer"@);
    lemma_names(imports, "createthreadpooltimer"@);
}

proof fn lemma_names(imports: Seq<Seq<char>>, text: Seq<char>)
    ensures
        names(imports, text) == any_contains(imports, text),
{
    reveal(names);
}

/// Use of the thread pool is told exactly where three of its functions are imported, or two
/// beside imports that change memory and resolve or flush code.
pub proof fn law_thread_pool_use_is_told(
    imports: Seq<Seq<char>>,
    data: Seq<u8>,
    libraries: Seq<Seq<char>>,
)
    ensures
        ({
            let hits = counted(names(imports, "createthreadpoolwork"@)) + counted(
                names(imports, "create_threadpool_work"@),
            ) + counted(names(imports, "submitthreadpoolwork"@)) + counted(
                names(imports, "closethreadpoolwork"@),
            ) + counted(names(imports, "tpallocwork"@)) + counted(names(imports, "tppostwork"@))
                + counted(names(imports, "trysubmitthreadpoolcallback"@)) + counted(
                names(imports, "setthreadpooltimer"@),
            ) + counted(names(imports, "createthreadpooltimer"@));
            let memory = names(imports, "virtualalloc"@) || names(imports, "virtualprotect"@)
                || names(imports, "ntprotectvirtualmemory"@) || names(imports, "rtlmovememory"@)
                || names(imports, "writeprocessmemory"@);
            let code = (names(imports, "getprocaddress"@) && names(imports, "loadlibrary"@))
                || names(imports, "ntflushinstructioncache"@);
            chain_indicators(imports, data, libraries).contains("threadpool_obfuscation"@) <==> (
            hits >= 3 || (hits == 2 && memory && code))
        }),
{
    lemma_chain_told(6, imports, data, libraries);
    lemma_thread_pool(imports);
    lemma_names(imports, "virtualalloc"@);
    lemma_names(imports, "virtualprotect"@);
    lemma_names(imports, "ntprotectvirtualmemory"@);
    lemma_names(imports, "rtlmovememory"@);
    lemma_names(imports, "writeprocessmemory"@);
    lemma_names(imports, "getprocaddress"@);
    lemma_names(imports, "loadlibrary"@);
    lemma_names(imports, "ntflushinstructioncache"@);
}

/// More imports, more libraries and more bytes around the old ones lose no chain.
pub proof fn law_more_evidence_loses_no_chain(
    imports: Seq<Seq<char>>,
    more_imports: Seq<Seq<char>>,
    before: Seq<u8>,
    data: Seq<u8>,
    behind: Seq<u8>,
    libraries: Seq<Seq<char>>,
    more_libraries: Seq<Seq<char>>,
    label: Seq<char>,
)
    requires
        forall|t: Seq<char>| #[trigger] imports.contains(t) ==> more_imports.contains(t),
        forall|t: Seq<char>| #[trigger] libraries.contains(t) ==> more_libraries.contains(t),
        chain_indicators(imports, data, libraries).contains(label),
    ensures
        chain_indicators(more_imports, before + data + behind, more_libraries).contains(label),
{
    let c = |k: int| chain_holds(k, imports, data, libraries);
    lemma_chains_listed(imports, data, libraries);
    lemma_told_holds(c, 14, label);
    let k = choose|k: int| 0 <= k < 14 && c(k) && label == #[trigger] chain_label(k);
    lemma_chain_kept(k, imports, more_imports, before, data, behind, libraries, more_libraries);
    lemma_chain_told(k, more_imports, before + data + behind, more_libraries);
}

proof fn lemma_bytes_kept(before: Seq<u8>, data: Seq<u8>, behind: Seq<u8>)
    ensures
        forall|text: Seq<char>|
            holds_narrow(data, text) ==> #[trigger] holds_narrow(before + data + behind, text),
{
    assert forall|text: Seq<char>| holds_narrow(data, text) implies #[trigger] holds_narrow(
        before + data + behind,
        text,
    ) by {
        law_more_bytes_hide_nothing(before, data, behind, text);
    }
}

proof fn lemma_names_kept(imports: Seq<Seq<char>>, more: Seq<Seq<char>>)
    requires
        forall|t: Seq<char>| #[trigger] imports.contains(t) ==> more.contains(t),
    ensures
        forall|text: Seq<char>| any_contains(imports, text) ==> #[trigger] any_contains(more, text),
{
    assert forall|text: Seq<char>| any_contains(imports, text) implies #[trigger] any_contains(
        more,
        text,
    ) by {
        let i = choose|i: int|
            0 <= i < imports.len() && contains_text(#[trigger] imports[i], text);
        assert(imports.contains(imports[i]));
        let j = more.index_of(imports[i]);
        assert(contains_text(more[j], text));
    }
}

proof fn lemma_chain_kept(
    k: int,
    imports: Seq<Seq<char>>,
    more_imports: Seq<Seq<char>>,
    before: Seq<u8>,
    data: Seq<u8>,
    behind: Seq<u8>,
    libraries: Seq<Seq<char>>,
    more_libraries: Seq<Seq<char>>,
)
    requires
        0 <= k < 14,
        forall|t: Seq<char>| #[trigger] imports.contains(t) ==> more_imports.contains(t),
        forall|t: Seq<char>| #[trigger] libraries.contains(t) ==> more_libraries.contains(t),
        chain_holds(k, imports, data, libraries),
    ensures
        chain_holds(k, more_imports, before + data + behind, more_libraries),
{
    lemma_bytes_kept(before, data, behind);
    lemma_names_kept(imports, more_imports);
    if proxy_library(libraries) {
        let i = choose|i: int|
            0 <= i < libraries.len() && is_proxy_library(#[trigger] libraries[i]);
        assert(libraries.contains(libraries[i]));
        let j = more_libraries.index_of(libraries[i]);
        assert(is_proxy_library(more_libraries[j]));
    }
}

} // verus!
