//! The script of the reader's own document.

use vstd::prelude::*;

verus! {

/// Sizes each message's frame to the height of its content, so that a whole
/// conversation scrolls as one page, and measures again as pictures load and as
/// content reflows. It also reports to the application what the reader does with
/// the cards: the listener at its end is what makes a click inside a message's body
/// select its card, since the frames do not reliably dispatch events to their parent.
pub const SIZE_SCRIPT: &'static str = "\
function s(f){if(f._s)return;f._s=1;try{var d=f.contentDocument;if(!d)return;\
var b=d.body,e=d.documentElement;\
var sy=window.scrollY;var _r=f.getBoundingClientRect();\
var above=_r.bottom<=0;var old=_r.height||0;\
f.style.width='';void f.offsetWidth;\
var w=Math.max(b?b.scrollWidth:0,e?e.scrollWidth:0);\
if(w>f.clientWidth+1)f.style.width=w+'px';\
var prev=f.style.height;f.style.height='0px';void f.offsetHeight;\
var h=Math.max(b?b.scrollHeight:0,e?e.scrollHeight:0,b?b.offsetHeight:0);\
if(h>0){f.style.height=h+'px';\
if(f.dataset.key&&f._h!==h){f._h=h;\
try{window.webkit.messageHandlers.vireo.postMessage('size:'+f.dataset.key+':'+h);}catch(_){}}}\
else{f.style.height=prev;h=old;}\
if(sy>0)window.scrollTo(0,above?sy+(h-old):sy);\
chase();pin();\
}catch(_){}finally{f._s=0;}}\
function pick(k,e){reportPos();\
var mo=e.shiftKey?'r':((e.ctrlKey||e.metaKey)?'t':'p');\
if(mo!=='p'){try{e.preventDefault();\
var g=(e.view&&e.view.getSelection)?e.view.getSelection():null;if(g)g.removeAllRanges();}catch(_){}}\
else{try{var t=(e.view&&e.view.getSelection)?e.view.getSelection():null;\
if(t&&String(t).length)return;}catch(_){}}\
try{window.webkit.messageHandlers.vireo.postMessage('sel:'+k+':'+mo);}catch(_){}}\
var QS='.vireo-quote-attr,.gmail_quote,blockquote,#divRplyFwdMsg';\
var SIG='.moz-signature,#Signature,.gmail_signature,[class*=\"signature\"]';\
function isq(n){return n.nodeType===1&&(n.matches(QS)||!!n.querySelector(QS));}\
function blank(n){return n.nodeType===3?!n.textContent.trim():(n.nodeType!==1||!n.textContent.trim());}\
function trailer(top,q){\
if(q.matches('.vireo-quote-attr,#divRplyFwdMsg'))return true;\
var n=top.nextSibling;\
while(n&&(isq(n)||blank(n)))n=n.nextSibling;\
var t='';\
for(;n;n=n.nextSibling){\
if(n.nodeType===3)t+=n.textContent;\
else if(n.nodeType===1&&!n.matches(SIG)){\
var c=n.cloneNode(true);var sg=c.querySelectorAll(SIG);\
for(var i=0;i<sg.length;i++)sg[i].parentNode.removeChild(sg[i]);\
var br=c.querySelectorAll('br');\
for(var j=0;j<br.length;j++)br[j].parentNode.replaceChild(c.ownerDocument.createTextNode('\\n'),br[j]);\
t+='\\n'+c.textContent;}}\
t=t.replace(/\\u00a0/g,' ').trim();\
return !t||/^[-_]{2,}[ \\t]*(\\n|$)/.test(t);}\
function quote(f){try{var d=f.contentDocument;if(!d||!d.body||f._q)return;\
var sel=['.vireo-quote-attr','.gmail_quote','blockquote[type=\"cite\"]','#divRplyFwdMsg','blockquote'];\
var q=null;for(var i=0;i<sel.length&&!q;i++)q=d.querySelector(sel[i]);\
if(!q)return;\
var top=q;while(top.parentNode&&top.parentNode!==d.body)top=top.parentNode;\
if(!top.parentNode)return;\
var before=false;\
for(var n=d.body.firstChild;n&&n!==top;n=n.nextSibling){\
if(n.nodeType===1||(n.nodeType===3&&n.textContent.trim()))before=true;}\
if(!before)return;\
if(!trailer(top,q))return;\
f._q=1;\
var box=d.createElement('div');top.parentNode.insertBefore(box,top);\
while(box.nextSibling)box.appendChild(box.nextSibling);\
box.style.display='none';\
if(!f.parentNode)return;\
var b=document.createElement('button');b.className='vireo-quote';\
b.type='button';b.textContent='\u{2022}\u{2022}\u{2022}';\
b.setAttribute('title','Show quoted text');\
f.parentNode.insertBefore(b,f.nextSibling);\
b.addEventListener('click',function(e){e.stopPropagation();e.preventDefault();\
var on=box.style.display==='none';\
var from=f.getBoundingClientRect().height;\
box.style.display=on?'':'none';\
b.classList.toggle('open',on);\
b.setAttribute('title',on?'Hide quoted text':'Show quoted text');\
var to=0;try{var dd=f.contentDocument,bb=dd.body,ee=dd.documentElement;\
var prev=f.style.height;f.style.height='0px';void f.offsetHeight;\
to=Math.max(bb?bb.scrollHeight:0,ee?ee.scrollHeight:0,bb?bb.offsetHeight:0);\
f.style.height=prev;void f.offsetHeight;}catch(_){}\
if(!to){s(f);return;}\
f.style.height=from+'px';f.classList.add('anim');\
void f.offsetHeight;\
f.style.height=to+'px';\
setTimeout(function(){f.classList.remove('anim');s(f);},280);});}catch(_){}}\
function init(f){quote(f);s(f);try{var d=f.contentDocument;if(d){if(window.ResizeObserver&&d.body){new ResizeObserver(function(){s(f);}).observe(d.body);}\
if(f.dataset.key&&!f._c){f._c=1;d.addEventListener('click',function(e){\
if(e.target&&e.target.closest&&e.target.closest('a'))return;pick(f.dataset.key,e);});}\
if(!f._u){f._u=1;['wheel','touchstart','mousedown','keydown'].forEach(function(ev){\
d.addEventListener(ev,function(){follow=null;hold=null;},{passive:true,capture:true});});\
d.addEventListener('keydown',selAll,true);d.addEventListener('keydown',copySel,true);}\
var im=d.images||[];for(var i=0;i<im.length;i++){if(!im[i].complete){im[i].addEventListener('load',function(){s(f);});im[i].addEventListener('error',function(){s(f);});}}}}catch(_){}\
setTimeout(function(){s(f);},250);setTimeout(function(){s(f);},1000);}\
function all(){return document.querySelectorAll('iframe.vireo-frame');}\
document.addEventListener('DOMContentLoaded',function(){\
var fs=all();var pend=fs.length,rdy=false;\
function ready(){if(rdy)return;rdy=true;\
try{window.webkit.messageHandlers.vireo.postMessage('ready:0:0');}catch(_){}\
var bd=document.body.dataset;\
if(bd.vireoNoscroll){var a=(bd.vireoAnchor||'').split(':');\
if(a.length===3){var el=document.querySelector('.vireo-msg[data-key=\"'+a[0]+':'+a[1]+'\"]');\
if(el){hold={el:el,off:parseInt(a[2],10)||0};\
if(el.querySelector('.vireo-dot'))follow=el;\
setTimeout(pin,0);}}return;}\
var ds=document.querySelectorAll('.vireo-msg .vireo-dot');\
var d=ds.length?ds[0]:null;\
if(d){var m=d.closest('.vireo-msg');\
if(m)setTimeout(function(){try{follow=m;m.scrollIntoView({block:'start'});}catch(_){}},0);}\
else if(bd.vireoNewest){\
var nm=document.querySelector('.vireo-msg[data-key=\"'+bd.vireoNewest+'\"]');\
if(nm)setTimeout(function(){try{follow=nm;nm.scrollIntoView({block:'start'});}catch(_){}},0);}}\
setTimeout(markClipped,0);setTimeout(markClipped,400);\
if(!pend)ready();\
for(var i=0;i<fs.length;i++){(function(f){var counted=false;\
function tick(){if(counted)return;counted=true;if(--pend<=0)ready();}\
if(f.contentDocument&&f.contentDocument.readyState==='complete'){init(f);tick();}\
f.addEventListener('load',function(){init(f);tick();});})(fs[i]);}\
setTimeout(ready,450);\
var hs=document.querySelectorAll('.vireo-msg-hdr');\
for(var j=0;j<hs.length;j++){hs[j].addEventListener('dblclick',function(){\
try{window.webkit.messageHandlers.vireo.postMessage('open:'+this.dataset.key);}catch(_){}});}\
var rbd=document.body.dataset;\
if(rbd.vireoReadmark&&document.body.classList.contains('vireo-conv')){\
var rdel=parseInt(rbd.vireoReadmark,10)||250;var rt={};\
var rio=new IntersectionObserver(function(es){es.forEach(function(en){\
var el=en.target,k=el.dataset.key;\
var vis=en.intersectionRatio>=0.5||en.intersectionRect.height>window.innerHeight*0.6;\
if(vis&&!rt[k]){rt[k]=setTimeout(function(){\
try{window.webkit.messageHandlers.vireo.postMessage('seen:'+k);}catch(_){}\
rio.unobserve(el);},rdel);}\
else if(!vis&&rt[k]){clearTimeout(rt[k]);delete rt[k];}\
});},{threshold:[0,0.25,0.5,0.75,1]});\
var rsecs=document.querySelectorAll('.vireo-msg');\
for(var ri=0;ri<rsecs.length;ri++){if(rsecs[ri].querySelector('.vireo-dot'))rio.observe(rsecs[ri]);}}\
window.vf={marks:[],cur:-1};\
window.vfDocs=function(){var ds=[document];var fs=document.querySelectorAll('iframe');\
for(var i=0;i<fs.length;i++){try{if(fs[i].contentDocument)ds.push(fs[i].contentDocument);}catch(_){}}return ds;};\
window.vfCss=function(d){if(d.getElementById('vireo-find-css'))return;\
var st=d.createElement('style');st.id='vireo-find-css';\
st.textContent='.vireo-find{background:rgba(255,198,0,0.5);color:#000;border-radius:5px;box-shadow:0 0 0 2px rgba(255,198,0,0.5);}.vireo-find.current{background:#ffc600;box-shadow:0 0 0 2px #ffc600;}';\
(d.head||d.documentElement).appendChild(st);};\
window.vireoFindClear=function(){for(var i=0;i<vf.marks.length;i++){var m=vf.marks[i];\
var p=m.parentNode;if(!p)continue;while(m.firstChild)p.insertBefore(m.firstChild,m);p.removeChild(m);p.normalize();}\
vf.marks=[];vf.cur=-1;};\
window.vfPost=function(){try{window.webkit.messageHandlers.vireo.postMessage(\
'found:0:0:'+(vf.marks.length?vf.cur+1:0)+','+vf.marks.length);}catch(_){}};\
window.vfShow=function(){for(var i=0;i<vf.marks.length;i++)vf.marks[i].className='vireo-find'+(i===vf.cur?' current':'');\
vfPost();\
var m=vf.marks[vf.cur];if(!m)return;\
var d=m.ownerDocument;\
if(d===document){m.scrollIntoView({block:'center'});}\
else{var fs=document.querySelectorAll('iframe');\
for(var j=0;j<fs.length;j++){if(fs[j].contentDocument===d){\
var r=m.getBoundingClientRect(),fr=fs[j].getBoundingClientRect();\
window.scrollTo({top:window.scrollY+fr.top+r.top-window.innerHeight/2});break;}}}};\
window.vfY=function(m){var d=m.ownerDocument,r=m.getBoundingClientRect();\
if(d===document)return r.top+window.scrollY;\
var fs=document.querySelectorAll('iframe');\
for(var j=0;j<fs.length;j++){if(fs[j].contentDocument===d)\
return fs[j].getBoundingClientRect().top+window.scrollY+r.top;}\
return r.top;};\
window.vireoFindStep=function(dir){if(!vf.marks.length)return;\
vf.cur=(vf.cur+dir+vf.marks.length)%vf.marks.length;vfShow();};\
window.vireoFind=function(q){vireoFindClear();q=(q||'').toLowerCase();\
if(q){var docs=vfDocs();\
for(var di=0;di<docs.length;di++){var d=docs[di];vfCss(d);\
var w=d.createTreeWalker(d.body||d.documentElement,NodeFilter.SHOW_TEXT,null);\
var nodes=[];var n;\
while((n=w.nextNode())){var pn=n.parentNode&&n.parentNode.nodeName;\
if(pn==='SCRIPT'||pn==='STYLE')continue;\
if(n.nodeValue&&n.nodeValue.toLowerCase().indexOf(q)>=0)nodes.push(n);}\
for(var ni=0;ni<nodes.length;ni++){var node=nodes[ni];\
var text=node.nodeValue,lower=text.toLowerCase(),pos=0,idx;\
var frag=d.createDocumentFragment(),had=false;\
while((idx=lower.indexOf(q,pos))>=0){had=true;\
frag.appendChild(d.createTextNode(text.slice(pos,idx)));\
var sp=d.createElement('span');sp.className='vireo-find';\
sp.textContent=text.slice(idx,idx+q.length);\
frag.appendChild(sp);vf.marks.push(sp);pos=idx+q.length;}\
frag.appendChild(d.createTextNode(text.slice(pos)));\
if(had)node.parentNode.replaceChild(frag,node);}}\
vf.marks=vf.marks.filter(function(m){return m.getClientRects().length>0;});\
if(vf.marks.length){vf.marks.sort(function(a,b){return vfY(a)-vfY(b);});\
vf.cur=0;vfShow();}else{vfPost();}}else{vfPost();}};\
var rs=document.querySelectorAll('.vireo-rcpt-toggle');\
for(var r=0;r<rs.length;r++){rs[r].addEventListener('click',function(e){\
e.stopPropagation();e.preventDefault();\
var h=this.closest('.vireo-msg-hdr');var b=h?h.querySelector('.vireo-rcpt'):null;if(!b)return;\
var on=b.hasAttribute('hidden');\
if(on)b.removeAttribute('hidden');else b.setAttribute('hidden','');\
this.classList.toggle('open',on);\
this.setAttribute('title',on?'Hide recipients':'Show recipients');});\
rs[r].addEventListener('dblclick',function(e){e.stopPropagation();});}\
document.addEventListener('click',function(e){\
if(e.target&&e.target.closest&&e.target.closest('.vireo-msg'))return;\
try{window.webkit.messageHandlers.vireo.postMessage('desel:0:0');}catch(_){}});\
var ms=document.querySelectorAll('.vireo-msg');\
for(var q=0;q<ms.length;q++){ms[q].addEventListener('click',function(e){\
var k=this.dataset.key;if(k)pick(k,e);});}\
var actsDelay=parseInt(document.body.dataset.vireoActsdelay||'0',10)||1200;\
document.documentElement.style.setProperty('--acts-delay',actsDelay+'ms');\
var ts=document.querySelectorAll('.vireo-acts-toggle');\
for(var t=0;t<ts.length;t++){ts[t].addEventListener('click',function(e){\
e.stopPropagation();e.preventDefault();\
var h=this.closest('.vireo-msg-hdr');var ac=h?h.querySelector('.vireo-acts'):null;if(!ac)return;\
var on=!ac.classList.contains('open');\
ac.classList.toggle('open',on);this.classList.toggle('open',on);});\
ts[t].addEventListener('dblclick',function(e){e.stopPropagation();});}\
for(var q2=0;q2<ms.length;q2++){(function(card){var timer=null;\
card.addEventListener('mouseleave',function(){\
var ac=card.querySelector('.vireo-acts.open');if(!ac)return;\
timer=setTimeout(function(){ac.classList.remove('open');\
var tg=card.querySelector('.vireo-acts-toggle');if(tg)tg.classList.remove('open');},actsDelay);});\
card.addEventListener('mouseenter',function(){if(timer){clearTimeout(timer);timer=null;}});})(ms[q2]);}\
var as=document.querySelectorAll('.vireo-act');\
for(var k=0;k<as.length;k++){as[k].addEventListener('click',function(e){\
e.stopPropagation();e.preventDefault();reportPos();\
if(this.dataset.act==='star')this.classList.toggle('on');\
try{window.webkit.messageHandlers.vireo.postMessage(this.dataset.act+':'+this.dataset.key);}catch(_){}});\
as[k].addEventListener('dblclick',function(e){e.stopPropagation();});}\
});\
function markClipped(){var as=document.querySelectorAll('.vireo-addr');\
for(var i=0;i<as.length;i++){var a=as[i];\
a.classList.toggle('clipped',a.scrollWidth>a.clientWidth+1);}}\
function hideMailMenu(){var m=window.__vireoMailMenu;\
if(m&&m.parentNode)m.parentNode.removeChild(m);window.__vireoMailMenu=null;\
var sc=window.__vireoMailScrim;\
if(sc&&sc.parentNode)sc.parentNode.removeChild(sc);window.__vireoMailScrim=null;}\
function mailMsg(mail){try{window.webkit.messageHandlers.vireo.postMessage('composeto:0:0:'+mail);}catch(_){}}\
function showMailMenu(x,y,mail){hideMailMenu();\
var sc=document.createElement('div');sc.className='vireo-mailmenu-scrim';\
['mousedown','contextmenu'].forEach(function(ev){sc.addEventListener(ev,function(e){\
e.preventDefault();e.stopPropagation();hideMailMenu();});});\
document.body.appendChild(sc);window.__vireoMailScrim=sc;\
var mn=document.createElement('div');mn.className='vireo-mailmenu';\
function item(label,fn){var b=document.createElement('button');b.type='button';\
b.textContent=label;b.addEventListener('click',function(ev){\
ev.stopPropagation();ev.preventDefault();hideMailMenu();fn();});mn.appendChild(b);}\
item('New Message',function(){mailMsg(mail);});\
item('Copy Address',function(){try{window.webkit.messageHandlers.vireo.postMessage('copyaddr:0:0:'+mail);}catch(_){}});\
item('Add to Contacts',function(){try{window.webkit.messageHandlers.vireo.postMessage('addcontact:0:0:'+mail);}catch(_){}});\
mn.style.left=Math.max(0,Math.min(x,window.innerWidth-200))+'px';\
mn.style.top=Math.max(0,Math.min(y,window.innerHeight-124))+'px';\
document.body.appendChild(mn);window.__vireoMailMenu=mn;}\
document.addEventListener('click',function(e){var m=window.__vireoMailMenu;\
if(m&&e.target&&m.contains(e.target))return;hideMailMenu();},true);\
window.addEventListener('scroll',hideMailMenu,{passive:true});\
document.addEventListener('click',function(e){\
var t=e.target&&e.target.closest?e.target.closest('.vireo-mail'):null;\
if(!t||!t.dataset.mail)return;\
e.preventDefault();e.stopPropagation();mailMsg(t.dataset.mail);},true);\
document.addEventListener('click',function(e){\
var v=e.target&&e.target.closest?e.target.closest('.vireo-verify,.vireo-pgp'):null;\
if(!v||!v.dataset.key)return;e.preventDefault();e.stopPropagation();\
var r=v.getBoundingClientRect();\
try{window.webkit.messageHandlers.vireo.postMessage(\
'senderinfo:'+v.dataset.key+':'+r.left+','+r.top+','+r.width+','+r.height+','+window.innerWidth);}catch(_){}},true);\
document.addEventListener('contextmenu',function(e){\
var t=e.target&&e.target.closest?e.target.closest('.vireo-mail'):null;\
if(!t||!t.dataset.mail)return;\
e.preventDefault();e.stopPropagation();\
showMailMenu(e.clientX,e.clientY,t.dataset.mail);},true);\
window.addEventListener('resize',function(){var fs=all();for(var i=0;i<fs.length;i++)s(fs[i]);\
markClipped();});\
var _st;function reportPos(){var ms=document.querySelectorAll('.vireo-msg');\
var best=null,off=0;\
for(var i=0;i<ms.length;i++){var r=ms[i].getBoundingClientRect();\
if(r.top<=1){best=ms[i];off=Math.max(0,-r.top);}else break;}\
if(best&&best.dataset.key){try{window.webkit.messageHandlers.vireo.postMessage(\
'scrollat:'+best.dataset.key+':'+Math.round(off));}catch(_){}}}\
window.addEventListener('scroll',function(){clearTimeout(_st);\
_st=setTimeout(reportPos,120);},{passive:true});\
var follow=null,hold=null;\
function selAll(e){if(!(e.ctrlKey||e.metaKey)||e.altKey||(e.key!=='a'&&e.key!=='A'))return;\
if(!document.body||!document.body.classList.contains('vireo-conv'))return;\
e.preventDefault();e.stopPropagation();\
try{window.webkit.messageHandlers.vireo.postMessage('selall:0:0');}catch(_){}}\
window.addEventListener('keydown',selAll,true);\
/* Ctrl+C. Focus is kept in this document (see the blur handler below) so\
   the single-key shortcuts keep working, which leaves the selection in a\
   body frame and the native copy with nothing to copy. Copy from the\
   frame that holds the selection instead; if the engine refuses, hand the\
   text to the host, which sets the clipboard itself. */\
function copyDoc(d,w){var sel=d&&d.getSelection();if(!sel||sel.isCollapsed||!String(sel).length)return false;\
var ok=false;try{if(w!==window)w.focus();ok=d.execCommand('copy');}catch(_){}\
try{if(w!==window)window.focus();}catch(_){}\
if(!ok){try{window.webkit.messageHandlers.vireo.postMessage('copy:0:0:'+String(sel));}catch(_){}}\
showCopied();return true;}\
/* Copies whatever is selected, in this document or in a body frame. Called\
   from the keydown below when this view has the keyboard, and by the host\
   when it does not: the list takes GTK focus back after a click in the\
   reader, so Ctrl+C usually lands on the window, not here. */\
window.__vireoCopySel=function(){try{if(copyDoc(document,window))return true;\
var fs=all();for(var i=0;i<fs.length;i++){try{if(copyDoc(fs[i].contentDocument,fs[i].contentWindow))return true;}catch(_){}}}catch(_){}\
return false;};\
function copySel(e){if(!(e.ctrlKey||e.metaKey)||e.altKey||e.shiftKey||(e.key!=='c'&&e.key!=='C'))return;\
var s=window.getSelection();if(s&&!s.isCollapsed&&String(s).length)return;\
if(window.__vireoCopySel()){e.preventDefault();e.stopPropagation();}}\
function showCopied(){var b=document.body;if(!b)return;\
var p=document.getElementById('vireo-copied');\
if(!p){p=document.createElement('div');p.id='vireo-copied';p.className='vireo-copied';b.appendChild(p);}\
p.textContent=b.dataset.vireoCopied||'Copied';\
void p.offsetHeight;p.classList.add('on');clearTimeout(p._t);\
p._t=setTimeout(function(){p.classList.remove('on');},1400);}\
window.addEventListener('keydown',copySel,true);\
function chase(){if(!follow)return;try{follow.scrollIntoView({block:'start'});}catch(_){}}\
function pin(){if(follow||!hold)return;try{var r=hold.el.getBoundingClientRect();\
var d=Math.round(r.top+hold.off);if(d)window.scrollBy(0,d);}catch(_){}}\
['wheel','touchstart','mousedown','keydown'].forEach(function(ev){\
window.addEventListener(ev,function(){follow=null;hold=null;},{passive:true,capture:true});});\
window.addEventListener('blur',function(){setTimeout(function(){\
var a=document.activeElement;\
if(a&&a.tagName==='IFRAME'&&a.classList&&a.classList.contains('vireo-frame')&&a.dataset.key){\
reportPos();\
try{window.webkit.messageHandlers.vireo.postMessage('sel:'+a.dataset.key+':p');}catch(_){}\
try{a.blur();window.focus();}catch(_){}}},0);});";

} // verus!
