//! Making the host's own strip the window's title bar.
//!
//! The window has no title bar of its own, so the page runs to the top and
//! the three window controls float over the host's header. The injected
//! script pushes that header right by `INSET` pixels so the controls land on
//! empty space, marks it (and its empty children) as the window's drag
//! region, and, if no header ever matches, says so by appending a marker to
//! the document title.
//!
//! WKWebView does not implement `env(titlebar-area-*)`, so the inset is a
//! constant: the controls are 12pt circles at 20pt spacing beginning 20pt in,
//! so the last ends at 72, and the inset is that plus a gap.

use vstd::prelude::*;

use crate::text::{chars_of, decimal, push_char, push_decimal, replace_all, replace_chars, string_of};

verus! {

/// How far the host's header must be pushed right so it clears the controls.
pub const INSET: u32 = 82;

/// Where the last of the three window controls ends: 20pt in, 20pt apart,
/// 12pt wide.
pub open spec fn controls_end() -> nat {
    20 + 2 * 20 + 12
}

/// The inset leaves a gap after the last window control.
pub proof fn lemma_inset_clears_controls()
    ensures
        INSET > controls_end(),
{
}

/// The placeholder in `SCRIPT` that the inset is written over.
pub const PLACEHOLDER: &'static str = "__INSET__";

/// The injection: a stylesheet that insets the host's header, and a script
/// that finds that header, marks its drag regions and reports a miss.
pub const SCRIPT: &'static str = r#"
(() => {
  // Top-level page only.
  //
  // Measured: Tauri's initialization scripts do NOT reach subframes on
  // WKWebView — a same-origin iframe of the host, opened inside the host page,
  // has neither this stylesheet nor `__TAURI_INTERNALS__` in it. So a module
  // never sees this script and cannot call a window command either.
  //
  // The guard stays anyway, because that is a wry implementation detail and not
  // a promise, and the failure if it changed is not subtle: every module has a
  // header of its own, so the shell would push 82 pixels into somebody else's
  // toolbar and mark it as a window-drag region — a press on a module's button
  // would move the window. Running this script on a module page at top level
  // does exactly that, which is how the shape of the failure is known.
  if (window.top !== window.self) return;

  const INSET = __INSET__;
  const MARK = 'kehikkoTitlebar';

  // The stylesheet goes in first and unconditionally, so that the moment the
  // header appears it is already inset — rather than drawn under the lights for
  // a frame and then jumping.
  const style = document.createElement('style');
  style.dataset.kehikkoDesktop = 'titlebar';
  style.textContent = `
    :root { --kehikko-titlebar-inset: ${INSET}px; }
    :root[data-kehikko-fullscreen="yes"] { --kehikko-titlebar-inset: 0px; }
    header[data-kehikko-titlebar] {
      padding-left: var(--kehikko-titlebar-inset) !important;
      transition: padding-left 120ms ease-out;
    }
    /* The lights are drawn by the system over the page, so nothing in the page
       may sit above them in the stacking order and eat their clicks. */
    header[data-kehikko-titlebar] { position: relative; z-index: 0; }
  `;
  const addStyle = () => (document.head || document.documentElement).appendChild(style);
  if (document.head) addStyle(); else document.addEventListener('DOMContentLoaded', addStyle, { once: true });

  // The host's own strip: the first <header> that is not a container's. Both
  // are <header> elements; only the container ones live inside <main>.
  const barOf = () => [...document.querySelectorAll('header')].find(h => !h.closest('main'));

  let applied = false;
  const apply = () => {
    const bar = barOf();
    if (!bar) return false;
    bar.setAttribute('data-kehikko-titlebar', '');

    // Dragging. Tauri moves the window when the mousedown lands on an element
    // carrying `data-tauri-drag-region` — the element itself, not an ancestor.
    // So the header gets it, and so does every child that is empty space: the
    // flex spacer, and any element with no text and no controls under it.
    // Buttons deliberately do not, or every press would move the window.
    bar.setAttribute('data-tauri-drag-region', '');
    for (const el of bar.children) {
      const interactive = el.matches('button, a, input, select, textarea, [role="button"], [tabindex]')
        || el.querySelector('button, a, input, select, textarea, [role="button"], [tabindex]');
      const empty = el.textContent.trim() === '' && !el.querySelector('svg, img');
      if (!interactive && empty) el.setAttribute('data-tauri-drag-region', '');
      else el.removeAttribute('data-tauri-drag-region');
    }
    return true;
  };

  const settle = () => {
    if (apply()) {
      if (!applied) {
        applied = true;
        document.documentElement.dataset[MARK] = 'applied';
      }
    }
  };

  // The header is React-rendered and re-renders whenever the project, the
  // kehikko or the module list changes — and a re-render drops the attributes,
  // because they are not in the host's JSX. So this watches rather than runs
  // once. A `MutationObserver` on the subtree is the cheap version of "whenever
  // that strip is rebuilt, mark it again".
  const observer = new MutationObserver(() => settle());
  const start = () => {
    settle();
    observer.observe(document.body, { childList: true, subtree: true });
    // If it never appears, say so where somebody will see it. A silent failure
    // here is three lights sitting on top of the project control, which looks
    // like a bug in the host rather than in this shell.
    setTimeout(() => {
      if (!applied) {
        document.documentElement.dataset[MARK] = 'missing';
        document.title = document.title + ' [no header matched]';
        console.error('kehikko-desktop: no host header matched, so the traffic lights are over the page. The injection in titlebar.rs matches the first <header> outside <main>; the host page has changed shape.');
      }
    }, 5000);
  };
  if (document.body) start(); else document.addEventListener('DOMContentLoaded', start, { once: true });
})();
"#;

/// The script with the inset written in place of every placeholder.
pub open spec fn injected_script(script: Seq<char>) -> Seq<char> {
    replace_all(script, PLACEHOLDER@, decimal(INSET as nat))
}

/// The title-bar injection, with the inset written in.
pub fn script() -> (s: String)
    ensures
        s@ == injected_script(SCRIPT@),
{
    let mut inset = String::new();
    push_decimal(&mut inset, INSET);
    let inset_chars = chars_of(inset.as_str());
    let pattern = chars_of(PLACEHOLDER);
    proof {
        reveal_strlit("__INSET__");
    }
    string_of(&replace_chars(&chars_of(SCRIPT), &pattern, &inset_chars))
}

/// The word the page is given for the fullscreen state.
pub open spec fn fullscreen_word(on: bool) -> Seq<char> {
    if on {
        "yes"@
    } else {
        "no"@
    }
}

/// The statement that tells the page whether the window is fullscreen.
pub open spec fn fullscreen_statement(on: bool) -> Seq<char> {
    "document.documentElement.dataset.kehikkoFullscreen = "@ + seq!['"'] + fullscreen_word(on)
        + seq!['"']
}

/// Tell the page whether the window is fullscreen: in fullscreen the controls
/// are gone, and the inset has to go with them.
pub fn fullscreen_script(on: bool) -> (s: String)
    ensures
        s@ == fullscreen_statement(on),
{
    let mut s = String::new();
    s.append("document.documentElement.dataset.kehikkoFullscreen = ");
    push_char(&mut s, '"');
    if on {
        s.append("yes");
    } else {
        s.append("no");
    }
    push_char(&mut s, '"');
    s
}

} // verus!
