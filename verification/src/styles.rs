//! The stylesheet of the reader's own document, in the pieces between which its
//! colours go.

use vstd::prelude::*;

verus! {

/// The page and the frames on it.
pub const PAGE_CSS: &'static str = ";font:14px/1.55 system-ui,sans-serif;}\
               body.vireo-conv{padding:14px;}\
               iframe.vireo-frame{width:100%;border:0;display:block;background:";

/// Frames that pan sideways, and the ground of a card.
pub const FRAME_CSS: &'static str = ";}\
               .vireo-pan{overflow-x:auto;}\
               iframe.vireo-frame.anim{transition:height 240ms cubic-bezier(0.4,0,0.2,1);}\
               @media (prefers-reduced-motion:reduce){iframe.vireo-frame.anim{transition:none;}}\
               .vireo-msg{background:";

/// Cards and the mark of a selected one.
pub const CARD_CSS: &'static str = ";\
                 border-radius:12px;overflow:hidden;margin:0 0 14px;}\
               .vireo-msg:last-child{margin-bottom:0;}\
               .vireo-msg{user-select:none;}\
               body:not(.vireo-conv) .vireo-msg{border-radius:0;margin:0;}\
               .vireo-msg.selected{box-shadow:0 0 0 2px ";

/// The header of a card.
pub const HEADER_CSS: &'static str = ";}\
               .vireo-msg-hdr{cursor:pointer;}\
               .vireo-msg-hdr{padding:12px 16px;cursor:default;user-select:none;\
                 position:sticky;top:0;z-index:1;background-color:";

/// The line of a card's header, wide and narrow.
pub const HEADER_LINE_CSS: &'static str = ";}\
               /* 8px between items on a line, but only 2px between wrapped\
                  lines — the flex gap otherwise pads rows apart too. */\
               .vireo-hdr-line{display:flex;column-gap:8px;row-gap:2px;\
                 align-items:baseline;flex-wrap:nowrap;\
                 min-width:0;position:relative;}\
               .vireo-hdr-meta{display:flex;gap:8px;align-items:baseline;flex:none;\
                 margin-left:auto;}\
               /* Narrow pane: the meta group (folder chip, recipients chip, date)\
                  drops to its own line as one unit — no mid-text wrapping — while\
                  the sender and the action palette hold the first line. */\
               @media (max-width:620px){\
                 /* Tighten the right-hand insets (card gutter + header padding)\
                    so the palette toggle sits nearer the pane's edge — but the\
                    combined inset never drops below 20px. */\
                 body.vireo-conv{padding:10px;}\
                 body.vireo-conv .vireo-msg-hdr{padding:12px 10px;}\
                 .vireo-hdr-line{flex-wrap:wrap;}\
                 .vireo-hdr-meta{order:10;flex-basis:100%;margin-left:34px;\
                   justify-content:flex-start;}\
                 /* Below the wrapped meta line the recipients need a touch\
                    more air than the wide layout's 2px. */\
                 .vireo-rcpt{margin-top:6px;}\
                 /* With the meta group gone from the first line, the palette\
                    pins itself to the corner (the \u{22ef} is already absolute). */\
                 body:not([data-vireo-acts=\"toggle\"]) .vireo-acts{margin-left:auto;}\
               }\
               body:not(.vireo-conv) .vireo-msg-hdr{background-color:";

/// The sender: avatar, name, tags, address and seals; the address menu.
pub const SENDER_CSS: &'static str = "\
               .vireo-ava{width:26px;height:26px;border-radius:50%;flex:none;align-self:center;\
                 display:flex;align-items:center;justify-content:center;color:#fff;\
                 font-size:0.8em;font-weight:700;}\
               /* Zero flex-basis: the name and address only absorb free space\
                  (up to their natural width), so their length can never force\
                  the palette onto another line. Under pressure the address\
                  gives way first (tiny grow share), fading out at its right\
                  edge; the name ellipsizes only after that. */\
               .vireo-from{font-weight:700;flex:99 1 0;max-width:max-content;min-width:0;\
                 white-space:nowrap;overflow:hidden;text-overflow:ellipsis;}\
               .vireo-tags{display:inline-flex;gap:4px;align-items:center;flex:0 0 auto;}\
               .vireo-tags:empty{display:none;}\
               .vireo-tag{font-size:0.72em;font-weight:700;line-height:1.4;padding:1px 7px;\
                 border-radius:9999px;white-space:nowrap;}\
               .vireo-addr{opacity:0.55;font-size:0.9em;flex:1 1 0;max-width:max-content;\
                 min-width:0;white-space:nowrap;overflow:hidden;text-overflow:clip;\
                 position:relative;}\
               /* The fade exists only while something actually collides with\
                  the address (`clipped` is set by measurement, below). */\
               .vireo-addr.clipped{\
                 -webkit-mask-image:linear-gradient(to right,#000 calc(100% - 18px),transparent);\
                 mask-image:linear-gradient(to right,#000 calc(100% - 18px),transparent);}\
               /* Hovering a clipped address reveals it in full: an overlay\
                  pinned to the span's spot, floating over whatever crowded it\
                  out, gone when the cursor leaves. */\
               .vireo-addr.clipped:hover{-webkit-mask-image:none;mask-image:none;\
                 z-index:6;}\
               /* Addresses act as links: click composes to them, right-click\
                  offers Copy / New Message. */\
               /* Sender-authentication seal (#88): invisible until a\
                  verdict arrives; a pass wears Bazaar's fixed blue (never the\
                  system accent), problems the warning/error reds.\
                  Sized in em and anchored to the text baseline, then eased\
                  down to the name's optical centre with an em transform\
                  (margins can't move it: WebKit synthesizes the missing\
                  baseline before they apply) — a fixed centred pixel box sat\
                  visibly low whenever a GNOME text scaling factor shrank the\
                  type around it. */\
               .vireo-verify{display:none;background:none;border:none;\
                 padding:0 2px;margin-left:2px;cursor:pointer;line-height:0;\
                 align-self:baseline;transform:translateY(0.18em);flex:none;}\
               .vireo-verify.on{display:inline-flex;}\
               .vireo-verify svg{width:0.95em;height:0.95em;display:block;}\
               .vireo-verify svg,.vireo-verify svg *{fill:currentColor;}\
               .vireo-verify.trust-pass{color:#3584e4;}\
               .vireo-verify.trust-unverified{color:currentColor;opacity:0.4;}\
               .vireo-verify.trust-suspicious{color:#cd9309;}\
               .vireo-verify.trust-fail{color:#c01c28;}\
               .vireo-pgp{display:none;background:none;border:none;gap:1px;\
                 padding:0 2px;margin-left:2px;cursor:pointer;line-height:0;\
                 align-self:baseline;transform:translateY(0.18em);flex:none;}\
               .vireo-pgp.on{display:inline-flex;}\
               .vireo-pgp svg{width:0.95em;height:0.95em;display:none;}\
               .vireo-pgp svg,.vireo-pgp svg *{fill:currentColor;}\
               .vireo-pgp.enc svg:first-child{display:block;}\
               .vireo-pgp.sig svg:last-child{display:block;}\
               .vireo-pgp.pgp-good{color:#26a269;}\
               .vireo-pgp.pgp-warn{color:#cd9309;}\
               .vireo-pgp.pgp-bad{color:#c01c28;}\
               .vireo-mail{cursor:pointer;}\
               .vireo-mail:hover{text-decoration:underline;}\
               /* Styled after the app's own context menus (context_menu.rs +\
                  .context-menu-list in styles.css): same padding, min width,\
                  row shape and weight, so both menu families read as one. */\
               .vireo-mailmenu-scrim{position:fixed;left:0;top:0;right:0;bottom:0;\
                 z-index:98;}\
               .vireo-mailmenu{position:fixed;z-index:99;background:";

/// The address menu's look, and an address that is cut off.
pub const MENU_CSS: &'static str = ";\
                 border:1px solid rgba(128,128,128,0.2);border-radius:12px;\
                 box-shadow:0 6px 24px rgba(0,0,0,0.22);padding:6px;\
                 min-width:190px;font-size:0.95em;}\
               .vireo-mailmenu button{display:block;width:100%;text-align:left;\
                 background:none;border:none;padding:8px 10px;border-radius:6px;\
                 color:inherit;cursor:pointer;font:inherit;font-weight:normal;}\
               .vireo-mailmenu button:hover{background:rgba(128,128,128,0.14);}\
               .vireo-addr.clipped:hover::after{content:attr(data-addr);\
                 position:absolute;left:-6px;top:50%;transform:translateY(-50%);\
                 background:";

/// An address shown in full.
pub const REVEAL_CSS: &'static str = ";border-radius:6px;padding:1px 6px;\
                 white-space:nowrap;text-decoration:underline;}\
               body:not(.vireo-conv) .vireo-addr.clipped:hover::after{\
                 background:";

/// Date, unread mark and the palette of actions.
pub const PALETTE_CSS: &'static str = ";}\
               .vireo-date{opacity:0.55;font-size:0.85em;flex:none;white-space:nowrap;}\
               .vireo-dot{width:8px;height:8px;border-radius:50%;background:#3584e4;\
                 flex:none;align-self:center;}\
               .vireo-end{height:1px;}\
               .vireo-quote{display:block;margin:0 16px 12px;padding:0 7px;\
                 font:inherit;font-size:0.7em;line-height:1.45;letter-spacing:0.06em;\
                 color:inherit;opacity:0.6;background:rgba(128,128,128,0.16);\
                 border:0;border-radius:999px;cursor:pointer;}\
               .vireo-quote:hover{opacity:0.95;background:rgba(128,128,128,0.28);}\
               .vireo-quote.open{opacity:0.95;}\
               .vireo-acts{display:flex;gap:2px;flex:none;align-self:center;margin-left:4px;}\
               /* Read-toggle: the icon showing is the ACTION (read envelope\
                  means mark-as-read); the section's unread class decides. */\
               .vireo-act .tr-when-unread,.vireo-act .tr-when-read{display:none;line-height:0;}\
               .vireo-msg.unread .vireo-act[data-act=\"toggleread\"] .tr-when-unread{display:inline-flex;}\
               .vireo-msg:not(.unread) .vireo-act[data-act=\"toggleread\"] .tr-when-read{display:inline-flex;}\
               .vireo-act{color:inherit;background:none;border:none;border-radius:6px;\
                 padding:5px 8px;cursor:pointer;opacity:0.7;\
                 transition:opacity 120ms ease,background 120ms ease;}\
               .vireo-act:hover{opacity:1;background:rgba(128,128,128,0.18);}\
               .vireo-act:active{background:rgba(128,128,128,0.3);}\
               .vireo-act svg{width:14px;height:14px;display:block;}\
               .vireo-act svg,.vireo-act svg *{fill:currentColor;}\
               /* A set star: the one state that carries colour. */\
               .vireo-act.on{color:#e5a50a;opacity:1;}\
               .vireo-acts-toggle{display:none;}\
               /* Behind-the-\u{22ef} mode: the palette overlays the header line as an\
                  absolute strip anchored at the toggle, expanding leftward over\
                  the text beneath (never pushing it), its left edge fading in\
                  from transparent. The \u{22ef} itself never moves. */\
               body[data-vireo-acts=\"toggle\"] .vireo-acts{position:absolute;\
                 right:34px;top:13px;transform:translateY(-50%) scaleX(0.6);\
                 transform-origin:right center;margin:0;\
                 padding:2px 6px 2px 30px;border-radius:8px;\
                 background:linear-gradient(to right,transparent,";

/// The open palette.
pub const OPEN_PALETTE_CSS: &'static str = " 26px);\
                 opacity:0;pointer-events:none;\
                 transition:opacity 140ms ease,transform 180ms ease;}\
               body[data-vireo-acts=\"toggle\"] .vireo-acts.open{opacity:1;\
                 pointer-events:auto;transform:translateY(-50%) scaleX(1);}\
               body:not(.vireo-conv)[data-vireo-acts=\"toggle\"] .vireo-acts{\
                 background:linear-gradient(to right,transparent,";

/// The button that opens the palette.
pub const TOGGLE_CSS: &'static str = " 26px);}\
               /* Always visible (not just on card hover), and OUT OF FLOW:\
                  absolutely pinned to the header's right edge, so no amount of\
                  header content can push or wrap it. The line reserves the\
                  button's footprint as fixed right padding instead. */\
               body[data-vireo-acts=\"toggle\"] .vireo-hdr-line{padding-right:38px;}\
               /* Anchored to the FIRST row's centre (the 26px avatar/sender\
                  line), not the line box's — when the meta row wraps beneath,\
                  the box grows downward but the button must not move. */\
               body[data-vireo-acts=\"toggle\"] .vireo-acts-toggle{display:block;\
                 position:absolute;right:0;top:13px;transform:translateY(-50%);\
                 color:";

/// The button's look, the folder and the recipients.
pub const RECIPIENTS_CSS: &'static str = ";background:none;border:none;border-radius:6px;\
                 padding:4px 8px;margin:0;cursor:pointer;\
                 opacity:0.65;transition:opacity 120ms ease,background 120ms ease;}\
               /* `svg *` too: the embedded symbolic paths carry their own fill\
                  attribute, which a rule on the svg element alone can't beat. */\
               .vireo-acts-toggle svg{width:14px;height:14px;display:block;}\
               .vireo-acts-toggle svg,.vireo-acts-toggle svg *{fill:currentColor;}\
               body[data-vireo-acts=\"toggle\"] .vireo-acts-toggle:hover{opacity:1;\
                 background:rgba(128,128,128,0.18);}\
               body[data-vireo-acts=\"toggle\"] .vireo-acts-toggle.open{opacity:1;}\
               body[data-vireo-acts=\"hover\"] .vireo-acts{opacity:0;pointer-events:none;\
                 transition:opacity 300ms ease var(--acts-delay,0ms);}\
               body[data-vireo-acts=\"hover\"] .vireo-msg:hover .vireo-acts{opacity:1;\
                 pointer-events:auto;transition:opacity 300ms ease 0ms;}\
               .vireo-folder{padding:0.05em 0.45em;border-radius:0.7em;\
                 font-size:0.78em;opacity:0.75;border:1px solid currentColor;\
                 white-space:nowrap;flex:none;}\
               .vireo-rcpt-toggle{font:inherit;font-size:0.78em;color:inherit;background:none;\
                 border:1px solid rgba(128,128,128,0.45);border-radius:999px;\
                 padding:0.05em 0.6em;cursor:pointer;opacity:0.7;\
                 white-space:nowrap;flex:none;\
                 transition:opacity 120ms ease,background 120ms ease;}\
               .vireo-rcpt-toggle:hover{opacity:1;background:rgba(128,128,128,0.18);}\
               .vireo-rcpt-toggle.open{opacity:1;background:rgba(128,128,128,0.18);}\
               /* Indented past the avatar (26px + 8px gap), so the recipients\
                  align with the sender's name — as does the wrapped meta line. */\
               .vireo-rcpt{font-size:0.85em;opacity:0.75;\
                 user-select:text;overflow-wrap:anywhere;margin:2px 0 0 34px;}\
               .vireo-rcpt div{margin-top:2px;}\
               .vireo-loading{opacity:0.5;padding:16px;}\
               /* The Copied pill after Ctrl+C: a toast the page draws itself,\
                  since the reader has no toast overlay of its own. */\
               .vireo-copied{position:fixed;left:50%;bottom:22px;transform:translateX(-50%) translateY(8px);\
                 padding:8px 18px;border-radius:999px;background:rgba(40,40,40,0.92);color:#fff;\
                 font:inherit;font-size:0.9em;box-shadow:0 2px 10px rgba(0,0,0,0.25);\
                 opacity:0;pointer-events:none;transition:opacity 180ms ease,transform 180ms ease;z-index:50;}\
               .vireo-copied.on{opacity:1;transform:translateX(-50%) translateY(0);}";

} // verus!
